//! The items that a manifest is made of.

use crate::alias::UnresolvedAlias;
use crate::assignment::Assignment;
use crate::keyed::Keyed;
use crate::namespace::Namespace;
use crate::recipe::UnresolvedRecipe;
use crate::setting::SetItem;
use crate::submodule::UnresolvedSubmodule;
use crate::token::Name;
use vstd::prelude::*;

verus! {

/// A single top-level item.
#[derive(Debug, PartialEq)]
pub enum Item {
    Alias(UnresolvedAlias),
    Assignment(Assignment),
    Submodule(UnresolvedSubmodule),
    Recipe(UnresolvedRecipe),
    SetItem(SetItem),
}

impl Item {
    pub open spec fn name_spec(&self) -> Name {
        match self {
            Item::Alias(alias) => alias.name,
            Item::Assignment(assignment) => assignment.name,
            Item::Submodule(submodule) => submodule.name,
            Item::Recipe(recipe) => recipe.name,
            Item::SetItem(set) => set.name,
        }
    }

    /// The space of names that the item's name belongs to. Aliases, recipes
    /// and modules share one.
    pub open spec fn namespace_spec(&self) -> Namespace {
        match self {
            Item::Alias(_) | Item::Submodule(_) | Item::Recipe(_) => Namespace::Recipe,
            Item::Assignment(_) => Namespace::Assignment,
            Item::SetItem(_) => Namespace::Setting,
        }
    }

    /// What messages call an item of this kind.
    pub open spec fn kind_spec(&self) -> &'static str {
        match self {
            Item::Alias(_) => "alias",
            Item::Assignment(_) => "variable",
            Item::Recipe(_) => "recipe",
            Item::SetItem(_) => "setting",
            Item::Submodule(_) => "submodule",
        }
    }

    pub fn name(&self) -> (n: &Name)
        ensures
            *n == self.name_spec(),
    {
        match self {
            Item::Alias(alias) => &alias.name,
            Item::Assignment(assignment) => &assignment.name,
            Item::Submodule(submodule) => &submodule.name,
            Item::Recipe(recipe) => &recipe.name,
            Item::SetItem(set) => &set.name,
        }
    }

    pub fn namespace(&self) -> (n: Namespace)
        ensures
            n == self.namespace_spec(),
    {
        match self {
            Item::Alias(_) | Item::Submodule(_) | Item::Recipe(_) => Namespace::Recipe,
            Item::Assignment(_) => Namespace::Assignment,
            Item::SetItem(_) => Namespace::Setting,
        }
    }

    pub fn kind(&self) -> (k: &'static str)
        ensures
            k == self.kind_spec(),
    {
        match self {
            Item::Alias(_) => "alias",
            Item::Assignment(_) => "variable",
            Item::Recipe(_) => "recipe",
            Item::SetItem(_) => "setting",
            Item::Submodule(_) => "submodule",
        }
    }
}

impl Keyed for Item {
    open spec fn key_spec(&self) -> Seq<char> {
        self.name_spec().lexeme@
    }

    fn key(&self) -> (k: &str) {
        self.name().lexeme()
    }
}

} // verus!
