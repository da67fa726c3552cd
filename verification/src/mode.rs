//! Text input mode — single-line or multi-line — with line and wrap configuration.
use vstd::prelude::*;

verus! {

#[derive(Debug, PartialEq, Eq, Structural)]
pub enum Mode {
    /// Single-line input. Pasted or IME newlines are normalized to spaces.
    SingleLine,
    /// Multi-line input with a configurable visible line range and optional wrapping.
    MultiLine { min_lines: usize, max_lines: Option<usize>, wrap: TextWrap },
}

impl Mode {
    pub fn is_multiline(&self) -> (r: bool)
        ensures
            r == (*self is MultiLine),
    {
        match self {
            Mode::MultiLine { .. } => true,
            Mode::SingleLine => false,
        }
    }
}

impl Clone for Mode {
    fn clone(&self) -> (r: Self)
        ensures
            r == *self,
    {
        match self {
            Mode::SingleLine => Mode::SingleLine,
            Mode::MultiLine { min_lines, max_lines, wrap } => Mode::MultiLine {
                min_lines: *min_lines,
                max_lines: *max_lines,
                wrap: *wrap,
            },
        }
    }
}

impl Default for Mode {
    fn default() -> (r: Self)
        ensures
            r == Mode::SingleLine,
    {
        Mode::SingleLine
    }
}

#[derive(Clone, Copy, Debug, PartialEq, Eq, Structural)]
pub enum TextWrap {
    /// Soft wrap on whitespace/word boundary at the available width. Logical
    /// text remains unchanged.
    Soft,
    /// No wrap — long lines may overflow horizontally. The element should clip.
    NoWrap,
}

impl Default for TextWrap {
    fn default() -> (r: Self)
        ensures
            r == TextWrap::Soft,
    {
        TextWrap::Soft
    }
}

} // verus!
