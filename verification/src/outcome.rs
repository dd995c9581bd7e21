//! Per-page outcomes: recognized text or one of the failure markers,
//! each with a fixed, clearly marked display text.

use vstd::prelude::*;
use vstd::string::StringExecFns;

verus! {

/// What a page's cascade (or its rendering) came to.
pub enum PageText {
    /// An attempt met the acceptance bar; this is its cleaned text.
    Recognized { text: String },
    /// Every attempt ran and none met the bar: a quality failure,
    /// reported with a fixed sentinel text, never silently empty.
    QualityFailure,
    /// Every attempt faulted in the recognizer: an infrastructure
    /// failure, distinct from a quality failure.
    EngineFailure,
    /// The page could not be rendered at all.
    RenderFailure,
}

/// One page's outcome, tagged with its 0-based page index.
pub struct PageOutcome {
    pub index: usize,
    pub text: PageText,
}

/// The fixed sentinel for a cascade that exhausted every attempt
/// without meeting the bar.
pub open spec fn quality_sentinel_spec() -> Seq<char> {
    "[OCR failed: insufficient valid words after all attempts]"@
}

/// The fixed marker for a cascade whose every attempt faulted in the
/// recognition engine.
pub open spec fn engine_failure_spec() -> Seq<char> {
    "[OCR failed: recognizer error on every attempt]"@
}

/// The fixed marker for a page that could not be rendered.
pub open spec fn render_failure_spec() -> Seq<char> {
    "[page failed to render]"@
}

pub fn quality_sentinel() -> (r: String)
    ensures
        r@ == quality_sentinel_spec(),
        r@.len() > 0,
{
    proof {
        reveal_strlit("[OCR failed: insufficient valid words after all attempts]");
    }
    String::from_str("[OCR failed: insufficient valid words after all attempts]")
}

pub fn engine_failure_marker() -> (r: String)
    ensures
        r@ == engine_failure_spec(),
        r@.len() > 0,
{
    proof {
        reveal_strlit("[OCR failed: recognizer error on every attempt]");
    }
    String::from_str("[OCR failed: recognizer error on every attempt]")
}

pub fn render_failure_marker() -> (r: String)
    ensures
        r@ == render_failure_spec(),
        r@.len() > 0,
{
    proof {
        reveal_strlit("[page failed to render]");
    }
    String::from_str("[page failed to render]")
}

/// The display text an outcome stands for: the recognized text itself,
/// or the fixed marker of its failure kind.
pub open spec fn display_spec(t: PageText) -> Seq<char> {
    match t {
        PageText::Recognized { text } => text@,
        PageText::QualityFailure => quality_sentinel_spec(),
        PageText::EngineFailure => engine_failure_spec(),
        PageText::RenderFailure => render_failure_spec(),
    }
}

impl PageText {
    /// Render the outcome for the sink: recognized text as it is, a
    /// failure as its fixed marker.
    pub fn display_text(&self) -> (r: String)
        ensures
            r@ == display_spec(*self),
    {
        match self {
            PageText::Recognized { text } => text.clone(),
            PageText::QualityFailure => quality_sentinel(),
            PageText::EngineFailure => engine_failure_marker(),
            PageText::RenderFailure => render_failure_marker(),
        }
    }
}

} // verus!
