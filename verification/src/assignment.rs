//! Assignments of values to variables.

use crate::expression::Expression;
use crate::keyed::Keyed;
use crate::token::Name;
use vstd::prelude::*;

verus! {

/// A variable and the expression that gives its value.
#[derive(Debug, PartialEq)]
pub struct Assignment {
    /// Whether the variable is handed to the commands in their environment.
    pub export: bool,
    pub name: Name,
    pub value: Expression,
}

impl Keyed for Assignment {
    open spec fn key_spec(&self) -> Seq<char> {
        self.name.lexeme@
    }

    fn key(&self) -> (k: &str) {
        self.name.lexeme()
    }
}

} // verus!
