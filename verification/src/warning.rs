//! What the parser warns of.

use crate::token::Token;
use vstd::prelude::*;

verus! {

/// What the parser accepts but advises against.
#[derive(Debug, PartialEq)]
pub enum Warning {
    /// `=` where `:=` is meant.
    DeprecatedEquals { equals: Token },
}

} // verus!
