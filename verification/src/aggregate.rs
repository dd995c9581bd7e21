//! Collecting per-page outcomes in whatever order pages finish, and
//! releasing them in ascending page-index order.

use vstd::prelude::*;

use crate::outcome::PageOutcome;
use crate::outcome::PageText;

verus! {

/// One slot per page, filled as pages report. Pages may finish in any
/// order; the aggregator releases them by ascending page index, one
/// outcome per page, no duplicates and no gaps.
pub struct PageResultAggregator {
    slots: Vec<Option<PageText>>,
}

impl View for PageResultAggregator {
    type V = Seq<Option<PageText>>;

    closed spec fn view(&self) -> Seq<Option<PageText>> {
        self.slots@
    }
}

impl PageResultAggregator {
    /// An aggregator awaiting one outcome for each of `page_count`
    /// pages.
    pub fn new(page_count: usize) -> (r: Self)
        ensures
            r@.len() == page_count,
            forall|i: int| 0 <= i < page_count ==> r@[i] is None,
    {
        let mut slots: Vec<Option<PageText>> = Vec::new();
        let mut i: usize = 0;
        while i < page_count
            invariant
                0 <= i <= page_count,
                slots@.len() == i,
                forall|k: int| 0 <= k < i ==> slots@[k] is None,
            decreases page_count - i,
        {
            slots.push(None);
            i = i + 1;
        }
        PageResultAggregator { slots }
    }

    /// Record one page's outcome. Each page reports exactly once.
    pub fn record(&mut self, index: usize, text: PageText)
        requires
            index < old(self)@.len(),
            old(self)@[index as int] is None,
        ensures
            final(self)@ == old(self)@.update(index as int, Some(text)),
    {
        self.slots.remove(index);
        self.slots.insert(index, Some(text));
        proof {
            assert(self.slots@ =~= old(self)@.update(index as int, Some(text)));
        }
    }

    /// How many pages the aggregator expects.
    pub fn page_count(&self) -> (r: usize)
        ensures
            r == self@.len(),
    {
        self.slots.len()
    }

    /// Whether the page at `index` has already reported.
    pub fn is_recorded(&self, index: usize) -> (r: bool)
        requires
            index < self@.len(),
        ensures
            r == (self@[index as int] is Some),
    {
        self.slots[index].is_some()
    }

    /// Whether every page has reported.
    pub fn is_complete(&self) -> (r: bool)
        ensures
            r == (forall|i: int| 0 <= i < self@.len() ==> self@[i] is Some),
    {
        let mut i: usize = 0;
        let n = self.slots.len();
        while i < n
            invariant
                0 <= i <= n,
                n == self@.len(),
                forall|k: int| 0 <= k < i ==> self@[k] is Some,
            decreases n - i,
        {
            if self.slots[i].is_none() {
                return false;
            }
            i = i + 1;
        }
        true
    }

    /// Release the outcomes in ascending page-index order: position
    /// `i` of the result carries page `i`'s outcome, whatever order
    /// the pages reported in.
    pub fn into_ordered(self) -> (r: Vec<PageOutcome>)
        requires
            forall|i: int| 0 <= i < self@.len() ==> self@[i] is Some,
        ensures
            r@.len() == self@.len(),
            forall|i: int| 0 <= i < r@.len() ==> (#[trigger] r@[i]).index == i,
            forall|i: int| 0 <= i < r@.len() ==> self@[i] == Some((#[trigger] r@[i]).text),
    {
        let ghost all = self@;
        let mut slots = self.slots;
        let total = slots.len();
        proof {
            assert(slots@ == all);
            assert(all.len() == total);
        }
        let mut out: Vec<PageOutcome> = Vec::new();
        let mut i: usize = 0;
        while slots.len() > 0
            invariant
                all.len() <= usize::MAX,
                out@.len() == i,
                i + slots@.len() == all.len(),
                forall|k: int| 0 <= k < slots@.len() ==> slots@[k] == all[i + k],
                forall|k: int| 0 <= k < all.len() ==> all[k] is Some,
                forall|k: int| 0 <= k < i ==> (#[trigger] out@[k]).index == k,
                forall|k: int| 0 <= k < i ==> all[k] == Some((#[trigger] out@[k]).text),
            decreases slots@.len(),
    {
            let slot = slots.remove(0);
            if let Some(text) = slot {
                out.push(PageOutcome { index: i, text });
                i = i + 1;
            } else {
                proof {
                    assert(all[i as int] is Some);
                    assert(false);
                }
            }
        }
        out
    }
}

/// Law: recording two different pages commutes — outcomes may arrive
/// in any completion order and leave the same aggregate behind.
pub proof fn lemma_record_commutes(
    s: Seq<Option<PageText>>,
    i: int,
    j: int,
    a: PageText,
    b: PageText,
)
    requires
        0 <= i < s.len(),
        0 <= j < s.len(),
        i != j,
    ensures
        s.update(i, Some(a)).update(j, Some(b)) == s.update(j, Some(b)).update(i, Some(a)),
{
    assert(s.update(i, Some(a)).update(j, Some(b)) =~= s.update(j, Some(b)).update(i, Some(a)));
}

} // verus!
