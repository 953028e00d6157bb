//! Counts the blank, comment and code lines of source files. A small state
//! machine, driven by each language's comment and string syntax, classifies
//! one line at a time and carries open block comments and verbatim strings
//! from line to line.
use vstd::prelude::*;

pub mod counter;
pub mod language_type;
pub mod quote;
pub mod state;
pub mod text;

verus! {

} // verus!
