//! Aliases: second names for recipes.

use crate::keyed::Keyed;
use crate::recipe::Recipe;
use crate::token::Name;
use std::rc::Rc;
use vstd::prelude::*;

verus! {

/// A second name for a recipe, as the source writes it.
#[derive(Debug, PartialEq)]
pub struct UnresolvedAlias {
    pub name: Name,
    /// The name of the recipe that the alias stands for.
    pub target: Name,
}

/// A second name for a recipe that was found.
#[derive(Debug, PartialEq)]
pub struct Alias {
    pub name: Name,
    /// The recipe that the alias stands for.
    pub target: Rc<Recipe>,
}

impl UnresolvedAlias {
    /// The alias once its target is known.
    pub fn resolve(self, target: Rc<Recipe>) -> (a: Alias)
        ensures
            a == (Alias { name: self.name, target }),
    {
        Alias { name: self.name, target }
    }
}

impl Keyed for UnresolvedAlias {
    open spec fn key_spec(&self) -> Seq<char> {
        self.name.lexeme@
    }

    fn key(&self) -> (k: &str) {
        self.name.lexeme()
    }
}

impl Keyed for Alias {
    open spec fn key_spec(&self) -> Seq<char> {
        self.name.lexeme@
    }

    fn key(&self) -> (k: &str) {
        self.name.lexeme()
    }
}

} // verus!
