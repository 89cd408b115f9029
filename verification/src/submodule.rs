//! Modules within modules.

use crate::keyed::Keyed;
use crate::module::Module;
use crate::suite::Suite;
use crate::token::Name;
use vstd::prelude::*;

verus! {

/// A module within a module, as the source writes it.
#[derive(Debug, PartialEq)]
pub struct UnresolvedSubmodule {
    pub name: Name,
    pub items: Suite,
}

/// A module within a module.
#[derive(Debug, PartialEq)]
pub struct Submodule {
    pub name: Name,
    pub items: Module,
}

impl Keyed for UnresolvedSubmodule {
    open spec fn key_spec(&self) -> Seq<char> {
        self.name.lexeme@
    }

    fn key(&self) -> (k: &str) {
        self.name.lexeme()
    }
}

impl Keyed for Submodule {
    open spec fn key_spec(&self) -> Seq<char> {
        self.name.lexeme@
    }

    fn key(&self) -> (k: &str) {
        self.name.lexeme()
    }
}

} // verus!
