//! What the parser hands to the analyzer.

use crate::suite::Suite;
use crate::warning::Warning;
use vstd::prelude::*;

verus! {

/// What the parser produces. Not every parse is a valid manifest: the
/// analyzer checks it and resolves its names.
#[derive(Debug, PartialEq)]
pub struct Parse {
    /// Top-level suite of items
    pub suite: Suite,
    /// Warnings encountered during parsing
    pub warnings: Vec<Warning>,
}

} // verus!
