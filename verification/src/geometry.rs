//! Page layout analysis: how much of the page's width the detected
//! glyphs span, and which segmentation mode that spread calls for.

use vstd::prelude::*;

verus! {

/// A glyph's horizontal extent on the page, in fixed-point page-space
/// units. Well-formed boxes have `left <= right`.
#[derive(Clone, Copy, PartialEq, Eq, Structural, Debug)]
pub struct GlyphBox {
    pub left: u64,
    pub right: u64,
}

impl GlyphBox {
    pub open spec fn wf(self) -> bool {
        self.left <= self.right
    }
}

/// The fraction of the page width covered by glyphs, kept exact as the
/// rational `span / width` (both in page-space units, `width > 0`).
#[derive(Clone, Copy, PartialEq, Eq, Structural, Debug)]
pub struct ColumnRatio {
    pub span: u64,
    pub width: u64,
}

impl ColumnRatio {
    pub open spec fn wf(self) -> bool {
        self.width > 0
    }

    /// The ratio is strictly above four fifths, the cut above which a
    /// page is treated as one solid block of text.
    pub open spec fn above_single_block_cut(self) -> bool {
        self.span * 5 > self.width * 4
    }
}

/// How the recognizer should assume text is laid out on the page.
#[derive(Clone, Copy, PartialEq, Eq, Structural, Debug)]
pub enum SegmentationMode {
    SingleBlock,
    AutoWithOrientationDetection,
}

/// The glyphs' left edges, as integers.
pub open spec fn left_edges(gs: Seq<GlyphBox>) -> Seq<int> {
    gs.map_values(|g: GlyphBox| g.left as int)
}

/// The glyphs' right edges, as integers.
pub open spec fn right_edges(gs: Seq<GlyphBox>) -> Seq<int> {
    gs.map_values(|g: GlyphBox| g.right as int)
}

/// The horizontal spread of the glyphs: zero on a page without glyphs,
/// otherwise the distance from the smallest left edge to the largest
/// right edge.
pub open spec fn span_of(gs: Seq<GlyphBox>) -> int {
    if gs.len() == 0 {
        0
    } else {
        right_edges(gs).max() - left_edges(gs).min()
    }
}

/// Compute the page's column ratio from its width and its glyph boxes:
/// the spread from the smallest left edge to the largest right edge,
/// over the page width; zero when the page has no glyphs.
pub fn column_ratio(width: u64, glyphs: &Vec<GlyphBox>) -> (r: ColumnRatio)
    requires
        width > 0,
        forall|i: int| 0 <= i < glyphs@.len() ==> (#[trigger] glyphs@[i]).wf(),
    ensures
        r.wf(),
        r.width == width,
        r.span == span_of(glyphs@),
{
    if glyphs.len() == 0 {
        return ColumnRatio { span: 0, width };
    }
    let mut min_left: u64 = glyphs[0].left;
    let mut max_right: u64 = glyphs[0].right;
    let mut i: usize = 1;
    while i < glyphs.len()
        invariant
            1 <= i <= glyphs@.len(),
            forall|k: int| 0 <= k < glyphs@.len() ==> (#[trigger] glyphs@[k]).wf(),
            exists|k: int| 0 <= k < i && (#[trigger] glyphs@[k]).left == min_left,
            exists|k: int| 0 <= k < i && (#[trigger] glyphs@[k]).right == max_right,
            forall|k: int| 0 <= k < i ==> min_left <= (#[trigger] glyphs@[k]).left,
            forall|k: int| 0 <= k < i ==> (#[trigger] glyphs@[k]).right <= max_right,
        decreases glyphs@.len() - i,
    {
        let g = glyphs[i];
        if g.left < min_left {
            min_left = g.left;
        }
        if g.right > max_right {
            max_right = g.right;
        }
        i = i + 1;
    }
    proof {
        let gs = glyphs@;
        let ls = left_edges(gs);
        let rs = right_edges(gs);
        ls.min_ensures();
        rs.max_ensures();
        let kl = choose|k: int| 0 <= k < gs.len() && (#[trigger] gs[k]).left == min_left;
        assert(ls[kl] == min_left as int);
        let kr = choose|k: int| 0 <= k < gs.len() && (#[trigger] gs[k]).right == max_right;
        assert(rs[kr] == max_right as int);
        let jl = choose|j: int| 0 <= j < ls.len() && ls[j] == ls.min();
        assert(gs[jl].left == ls.min());
        let jr = choose|j: int| 0 <= j < rs.len() && rs[j] == rs.max();
        assert(gs[jr].right == rs.max());
        assert(ls.min() == min_left as int);
        assert(rs.max() == max_right as int);
        assert(gs[kl].wf());
    }
    ColumnRatio { span: max_right - min_left, width }
}

/// Law: a page with no glyph boxes has a column ratio of zero, which
/// is not above the single-block cut, so such a page gets automatic
/// layout analysis with orientation detection — the conservative
/// default for unknown layouts.
pub proof fn lemma_no_glyphs_auto_mode(width: u64)
    requires
        width > 0,
    ensures
        span_of(Seq::<GlyphBox>::empty()) == 0,
        !(ColumnRatio { span: 0, width }).above_single_block_cut(),
{
}

/// Law: when the glyphs cover the full page width — some left edge at
/// zero and some right edge at the page's width — the column ratio is
/// exactly one, which is above the four-fifths cut, so the page reads
/// as a single block.
pub proof fn lemma_full_width_single_block(gs: Seq<GlyphBox>, width: u64)
    requires
        gs.len() > 0,
        width > 0,
        left_edges(gs).min() == 0,
        right_edges(gs).max() == width,
    ensures
        span_of(gs) == width,
        (ColumnRatio { span: width, width }).above_single_block_cut(),
{
}

/// Select the segmentation mode from the column ratio alone: a spread
/// strictly above four fifths of the page width reads as one solid
/// block; anything else falls back to automatic layout analysis with
/// orientation detection.
pub fn segmentation_mode(r: &ColumnRatio) -> (m: SegmentationMode)
    ensures
        m == (if r.above_single_block_cut() {
            SegmentationMode::SingleBlock
        } else {
            SegmentationMode::AutoWithOrientationDetection
        }),
{
    let scaled_span = (r.span as u128) * 5;
    let scaled_width = (r.width as u128) * 4;
    if scaled_span > scaled_width {
        SegmentationMode::SingleBlock
    } else {
        SegmentationMode::AutoWithOrientationDetection
    }
}

} // verus!
