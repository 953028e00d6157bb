//! What the classifier carries from one line to the next, and what it says of a line.
use vstd::prelude::*;

verus! {

/// The classifier's memory of an unfinished construct on earlier lines.
#[derive(Debug, Clone, Copy, PartialEq, Eq, Structural)]
pub enum CodeState {
    /// Inside a block comment that is not yet closed.
    InMultilineComent,
    /// Inside a verbatim string that is not yet closed.
    InVerbatimQuote,
    /// No construct left open.
    Other,
}

/// The kind of one physical line.
#[derive(Debug, Clone, Copy, PartialEq, Eq, Structural)]
pub enum LineType {
    Code,
    Blank,
    Comment,
}

} // verus!
