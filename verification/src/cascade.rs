//! The recognition cascade: a state machine that tries the threshold
//! ladder against the plain page, then against the enhanced page, and
//! stops at the first attempt whose cleaned text meets the acceptance
//! bar, or when both ladders are exhausted.
//!
//! The machine decides; the caller performs the recognizer invocation
//! between steps and feeds each attempt's outcome back in.

use vstd::prelude::*;

use crate::lexical::cleaned_text;
use crate::lexical::dict_words;
use crate::lexical::filter_text;
use crate::lexical::valid_count;
use crate::outcome::PageText;

verus! {

/// The fixed brightness thresholds, tried high to low: earlier entries
/// binarize more conservatively and are tried first.
pub open spec fn ladder_spec() -> Seq<u8> {
    seq![180u8, 150u8, 128u8, 100u8, 70u8]
}

/// Attempts in one full cascade: the ladder against the plain page,
/// then the ladder again against the enhanced page.
pub open spec fn total_attempts() -> nat {
    2 * ladder_spec().len()
}

/// The threshold ladder as a vector, for stepping through it.
pub fn threshold_ladder() -> (r: Vec<u8>)
    ensures
        r@ == ladder_spec(),
{
    let ladder: Vec<u8> = vec![180u8, 150u8, 128u8, 100u8, 70u8];
    proof {
        assert(ladder@ =~= ladder_spec());
    }
    ladder
}

/// The acceptance bar: how many valid words an attempt's cleaned text
/// must reach for the cascade to accept it.
#[derive(Clone, Copy, PartialEq, Eq, Structural, Debug)]
pub struct CascadeConfig {
    pub min_valid_words: usize,
}

/// Mathematical model of the cascade state.
pub enum CascadeModel {
    /// About to try the ladder entry `idx` (`enhanced` says against
    /// which page); `saw_text` records whether any attempt so far got
    /// text back from the recognizer at all.
    Trying { enhanced: bool, idx: nat, saw_text: bool },
    /// An attempt met the bar; its cleaned text is the page's text.
    Accepted { text: Seq<char> },
    /// Every attempt ran, none met the bar, at least one got text:
    /// a quality failure.
    Exhausted,
    /// Every attempt faulted in the recognizer: an engine failure.
    EngineFailed,
}

/// Mathematical model of one attempt's outcome.
pub enum AttemptModel {
    /// The recognizer faulted on this attempt.
    Fault,
    /// The recognizer returned text; `cleaned` and `valid` are the
    /// lexical filter's output and count for it.
    Scored { cleaned: Seq<char>, valid: nat },
}

pub open spec fn model_wf(m: CascadeModel) -> bool {
    match m {
        CascadeModel::Trying { idx, .. } => idx < ladder_spec().len(),
        _ => true,
    }
}

/// How many attempts a trying state has already put behind it: its
/// position in the canonical attempt order (plain ladder first, then
/// the enhanced ladder).
pub open spec fn attempt_no(m: CascadeModel) -> nat {
    match m {
        CascadeModel::Trying { enhanced, idx, .. } => if enhanced {
            ladder_spec().len() + idx
        } else {
            idx
        },
        _ => total_attempts(),
    }
}

/// The state before any attempt: the plain ladder's first entry.
pub open spec fn initial_model() -> CascadeModel {
    CascadeModel::Trying { enhanced: false, idx: 0, saw_text: false }
}

/// Move to the next attempt in canonical order, or to the terminal
/// state when the enhanced ladder is spent: `Exhausted` if any attempt
/// got text, `EngineFailed` if every one faulted.
pub open spec fn advance_model(enhanced: bool, idx: nat, saw_text: bool) -> CascadeModel {
    if idx + 1 < ladder_spec().len() {
        CascadeModel::Trying { enhanced, idx: idx + 1, saw_text }
    } else if !enhanced {
        CascadeModel::Trying { enhanced: true, idx: 0, saw_text }
    } else if saw_text {
        CascadeModel::Exhausted
    } else {
        CascadeModel::EngineFailed
    }
}

/// An outcome meets the acceptance bar when it carries text whose
/// valid-word count reaches the bar.
pub open spec fn meets_bar(ev: AttemptModel, min: nat) -> bool {
    match ev {
        AttemptModel::Fault => false,
        AttemptModel::Scored { valid, .. } => valid >= min,
    }
}

/// One step of the cascade: a trying state accepts an outcome that
/// meets the bar and otherwise advances; terminal states never move.
pub open spec fn step_model(st: CascadeModel, ev: AttemptModel, min: nat) -> CascadeModel {
    match st {
        CascadeModel::Trying { enhanced, idx, saw_text } => match ev {
            AttemptModel::Fault => advance_model(enhanced, idx, saw_text),
            AttemptModel::Scored { cleaned, valid } => if valid >= min {
                CascadeModel::Accepted { text: cleaned }
            } else {
                advance_model(enhanced, idx, true)
            },
        },
        _ => st,
    }
}

/// Fold a sequence of outcomes through the machine, stopping at the
/// first terminal state.
pub open spec fn run_model(st: CascadeModel, evs: Seq<AttemptModel>, min: nat) -> CascadeModel
    decreases evs.len(),
{
    if !(st is Trying) || evs.len() == 0 {
        st
    } else {
        run_model(step_model(st, evs[0], min), evs.drop_first(), min)
    }
}

/// How many outcomes such a run consumes: one per attempt actually
/// made, none once a terminal state is reached.
pub open spec fn attempts_used(st: CascadeModel, evs: Seq<AttemptModel>, min: nat) -> nat
    decreases evs.len(),
{
    if !(st is Trying) || evs.len() == 0 {
        0
    } else {
        1 + attempts_used(step_model(st, evs[0], min), evs.drop_first(), min)
    }
}

/// The cleaned text an outcome carries (a fault carries none).
pub open spec fn cleaned_of(ev: AttemptModel) -> Seq<char> {
    match ev {
        AttemptModel::Scored { cleaned, .. } => cleaned,
        AttemptModel::Fault => Seq::empty(),
    }
}

/// The cascade state as threaded through executable code.
pub enum CascadeState {
    Trying { enhanced: bool, idx: usize, saw_text: bool },
    Accepted { text: String },
    Exhausted,
    EngineFailed,
}

impl View for CascadeState {
    type V = CascadeModel;

    open spec fn view(&self) -> CascadeModel {
        match self {
            CascadeState::Trying { enhanced, idx, saw_text } => CascadeModel::Trying {
                enhanced: *enhanced,
                idx: *idx as nat,
                saw_text: *saw_text,
            },
            CascadeState::Accepted { text } => CascadeModel::Accepted { text: text@ },
            CascadeState::Exhausted => CascadeModel::Exhausted,
            CascadeState::EngineFailed => CascadeModel::EngineFailed,
        }
    }
}

/// One attempt's outcome as handed to the machine: either the
/// recognizer faulted, or its raw text was filtered into `cleaned`
/// with `valid_words` valid tokens.
pub enum AttemptEval {
    Fault,
    Scored { cleaned: String, valid_words: usize },
}

impl View for AttemptEval {
    type V = AttemptModel;

    open spec fn view(&self) -> AttemptModel {
        match self {
            AttemptEval::Fault => AttemptModel::Fault,
            AttemptEval::Scored { cleaned, valid_words } => AttemptModel::Scored {
                cleaned: cleaned@,
                valid: *valid_words as nat,
            },
        }
    }
}

/// The state before any attempt.
pub fn initial_state() -> (r: CascadeState)
    ensures
        r@ == initial_model(),
        model_wf(r@),
{
    CascadeState::Trying { enhanced: false, idx: 0, saw_text: false }
}

/// The attempt a trying state calls for: against which page (enhanced
/// or not) and at which threshold. `None` once the cascade is done.
pub fn next_attempt(st: &CascadeState) -> (r: Option<(bool, u8)>)
    requires
        model_wf(st@),
    ensures
        r == (match st@ {
            CascadeModel::Trying { enhanced, idx, .. } => Some(
                (enhanced, ladder_spec()[idx as int]),
            ),
            _ => None::<(bool, u8)>,
        }),
{
    match st {
        CascadeState::Trying { enhanced, idx, .. } => {
            let ladder = threshold_ladder();
            Some((*enhanced, ladder[*idx]))
        },
        _ => None,
    }
}

/// Feed one attempt's outcome to the machine.
pub fn step(st: CascadeState, ev: AttemptEval, cfg: &CascadeConfig) -> (r: CascadeState)
    requires
        model_wf(st@),
    ensures
        r@ == step_model(st@, ev@, cfg.min_valid_words as nat),
        model_wf(r@),
{
    match st {
        CascadeState::Trying { enhanced, idx, saw_text } => match ev {
            AttemptEval::Fault => advance(enhanced, idx, saw_text),
            AttemptEval::Scored { cleaned, valid_words } => if valid_words
                >= cfg.min_valid_words {
                CascadeState::Accepted { text: cleaned }
            } else {
                advance(enhanced, idx, true)
            },
        },
        _ => st,
    }
}

fn advance(enhanced: bool, idx: usize, saw_text: bool) -> (r: CascadeState)
    requires
        idx < ladder_spec().len(),
    ensures
        r@ == advance_model(enhanced, idx as nat, saw_text),
        model_wf(r@),
{
    if idx + 1 < 5 {
        CascadeState::Trying { enhanced, idx: idx + 1, saw_text }
    } else if !enhanced {
        CascadeState::Trying { enhanced: true, idx: 0, saw_text }
    } else if saw_text {
        CascadeState::Exhausted
    } else {
        CascadeState::EngineFailed
    }
}

/// What one raw recognizer outcome evaluates to: a fault as a fault,
/// text as its lexical-filter output against the dictionary's words.
pub open spec fn eval_model(raw: Option<Seq<char>>, words: Set<Seq<char>>) -> AttemptModel {
    match raw {
        Some(s) => AttemptModel::Scored {
            cleaned: cleaned_text(s, words),
            valid: valid_count(s, words),
        },
        None => AttemptModel::Fault,
    }
}

/// Feed one raw recognizer outcome to the machine: a fault advances
/// the cascade, text is run through the lexical filter and accepted
/// when its valid-word count meets the bar.
pub fn record_attempt(
    st: CascadeState,
    raw: Option<String>,
    dict: &zspell::Dictionary,
    cfg: &CascadeConfig,
) -> (r: CascadeState)
    requires
        model_wf(st@),
    ensures
        r@ == step_model(
            st@,
            eval_model(
                match raw {
                    Some(s) => Some(s@),
                    None => None,
                },
                dict_words(*dict),
            ),
            cfg.min_valid_words as nat,
        ),
        model_wf(r@),
{
    match raw {
        Some(s) => {
            let (cleaned, valid_words) = filter_text(s.as_str(), dict);
            step(st, AttemptEval::Scored { cleaned, valid_words }, cfg)
        },
        None => step(st, AttemptEval::Fault, cfg),
    }
}

/// The outcome a terminal cascade state stands for: accepted text as
/// recognized text, exhaustion as a quality failure, an all-fault run
/// as an engine failure.
pub open spec fn models_final(r: PageText, m: CascadeModel) -> bool {
    match m {
        CascadeModel::Accepted { text } => r matches PageText::Recognized { text: s } && s@
            == text,
        CascadeModel::Exhausted => r is QualityFailure,
        CascadeModel::EngineFailed => r is EngineFailure,
        CascadeModel::Trying { .. } => false,
    }
}

/// Read a finished cascade off as the page's outcome.
pub fn finish(st: CascadeState) -> (r: PageText)
    requires
        !(st@ is Trying),
    ensures
        models_final(r, st@),
{
    match st {
        CascadeState::Trying { .. } => {
            proof {
                assert(false);
            }
            PageText::EngineFailure
        },
        CascadeState::Accepted { text } => PageText::Recognized { text },
        CascadeState::Exhausted => PageText::QualityFailure,
        CascadeState::EngineFailed => PageText::EngineFailure,
    }
}

/// Law: the cascade short-circuits. When the outcomes before position
/// `k` all miss the bar and the one at `k` meets it, the machine
/// consumes exactly `k + 1` outcomes — it never looks at a later
/// threshold or phase — and accepts that outcome's cleaned text.
pub proof fn lemma_cascade_short_circuit(evs: Seq<AttemptModel>, min: nat, k: int)
    requires
        0 <= k < evs.len(),
        k < total_attempts(),
        forall|m: int| 0 <= m < k ==> !meets_bar(#[trigger] evs[m], min),
        meets_bar(evs[k], min),
    ensures
        attempts_used(initial_model(), evs, min) == k + 1,
        run_model(initial_model(), evs, min) == (CascadeModel::Accepted {
            text: cleaned_of(evs[k]),
        }),
{
    lemma_short_circuit_from(initial_model(), evs, min, k);
}

proof fn lemma_short_circuit_from(st: CascadeModel, evs: Seq<AttemptModel>, min: nat, k: int)
    requires
        st is Trying,
        model_wf(st),
        0 <= k < evs.len(),
        k + attempt_no(st) < total_attempts(),
        forall|m: int| 0 <= m < k ==> !meets_bar(#[trigger] evs[m], min),
        meets_bar(evs[k], min),
    ensures
        attempts_used(st, evs, min) == k + 1,
        run_model(st, evs, min) == (CascadeModel::Accepted { text: cleaned_of(evs[k]) }),
    decreases k,
{
    if k == 0 {
        let next = step_model(st, evs[0], min);
        assert(next == CascadeModel::Accepted { text: cleaned_of(evs[0]) });
        assert(run_model(next, evs.drop_first(), min) == next);
        assert(attempts_used(next, evs.drop_first(), min) == 0);
    } else {
        let next = step_model(st, evs[0], min);
        assert(next is Trying && model_wf(next) && attempt_no(next) == attempt_no(st) + 1);
        assert(forall|m: int|
            0 <= m < k - 1 ==> !meets_bar(#[trigger] evs.drop_first()[m], min));
        assert(evs.drop_first()[k - 1] == evs[k]);
        lemma_short_circuit_from(next, evs.drop_first(), min, k - 1);
    }
}

/// Law: exhaustion. When no outcome meets the bar and at least one
/// full cascade's worth of outcomes is offered, the machine consumes
/// exactly one outcome per attempt — twice the ladder's length — and
/// ends exhausted if any attempt got text back, or engine-failed if
/// every attempt faulted.
pub proof fn lemma_cascade_exhaustion(evs: Seq<AttemptModel>, min: nat)
    requires
        evs.len() >= total_attempts(),
        forall|m: int| 0 <= m < evs.len() ==> !meets_bar(#[trigger] evs[m], min),
    ensures
        attempts_used(initial_model(), evs, min) == total_attempts(),
        run_model(initial_model(), evs, min) == (if (exists|m: int|
            0 <= m < total_attempts() && evs[m] is Scored) {
            CascadeModel::Exhausted
        } else {
            CascadeModel::EngineFailed
        }),
{
    lemma_exhaust_from(initial_model(), evs, min);
}

proof fn lemma_exhaust_from(st: CascadeModel, evs: Seq<AttemptModel>, min: nat)
    requires
        st is Trying,
        model_wf(st),
        evs.len() >= total_attempts() - attempt_no(st),
        forall|m: int| 0 <= m < evs.len() ==> !meets_bar(#[trigger] evs[m], min),
    ensures
        attempts_used(st, evs, min) == total_attempts() - attempt_no(st),
        run_model(st, evs, min) == (if st->saw_text || (exists|m: int|
            0 <= m < total_attempts() - attempt_no(st) && evs[m] is Scored) {
            CascadeModel::Exhausted
        } else {
            CascadeModel::EngineFailed
        }),
    decreases evs.len(),
{
    let next = step_model(st, evs[0], min);
    let remaining = total_attempts() - attempt_no(st);
    if attempt_no(st) + 1 == total_attempts() {
        assert(!(next is Trying));
        assert(next == (if st->saw_text || evs[0] is Scored {
            CascadeModel::Exhausted
        } else {
            CascadeModel::EngineFailed
        }));
        assert(run_model(next, evs.drop_first(), min) == next);
        assert(attempts_used(next, evs.drop_first(), min) == 0);
        assert(attempts_used(st, evs, min) == 1);
        assert((exists|m: int| 0 <= m < 1 && evs[m] is Scored) <==> evs[0] is Scored);
    } else {
        assert(next is Trying && model_wf(next) && attempt_no(next) == attempt_no(st) + 1);
        assert(next->saw_text == (st->saw_text || evs[0] is Scored));
        lemma_exhaust_from(next, evs.drop_first(), min);
        assert forall|m: int| 0 <= m < remaining - 1 implies (evs.drop_first()[m] is Scored)
            == (evs[m + 1] is Scored) by {
            assert(evs.drop_first()[m] == evs[m + 1]);
        }
        assert((next->saw_text || (exists|m: int|
            0 <= m < remaining - 1 && evs.drop_first()[m] is Scored)) <==> (st->saw_text
            || (exists|m: int| 0 <= m < remaining && evs[m] is Scored))) by {
            if !st->saw_text && !(evs[0] is Scored) {
                if exists|m: int| 0 <= m < remaining && evs[m] is Scored {
                    let w = choose|m: int| 0 <= m < remaining && evs[m] is Scored;
                    assert(w >= 1);
                    assert(evs.drop_first()[w - 1] == evs[w]);
                }
                if exists|m: int| 0 <= m < remaining - 1 && evs.drop_first()[m] is Scored {
                    let w = choose|m: int|
                        0 <= m < remaining - 1 && evs.drop_first()[m] is Scored;
                    assert(evs[w + 1] is Scored);
                }
            } else if !st->saw_text && evs[0] is Scored {
                assert(evs[0] is Scored && 0 < remaining);
            }
        }
    }
}

} // verus!
