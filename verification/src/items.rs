//! The items of a module, sorted by what they are.

use crate::alias::UnresolvedAlias;
use crate::analysis::Parts;
use crate::assignment::Assignment;
use crate::fault::first_fault;
use crate::keyed::Keyed;
use crate::recipe::UnresolvedRecipe;
use crate::setting::SetItem;
use crate::shape::shape_faults;
use crate::submodule::UnresolvedSubmodule;
use crate::table::{has_key, Table};
use vstd::prelude::*;

verus! {

/// The items of a module, sorted by what they are.
#[derive(Debug, PartialEq)]
pub struct Items {
    pub aliases: Table<UnresolvedAlias>,
    pub assignments: Table<Assignment>,
    pub recipes: Table<UnresolvedRecipe>,
    pub sets: Table<SetItem>,
    pub submodules: Table<UnresolvedSubmodule>,
}

impl View for Items {
    type V = Parts;

    open spec fn view(&self) -> Parts {
        Parts {
            aliases: self.aliases@,
            assignments: self.assignments@,
            recipes: self.recipes@,
            sets: self.sets@,
            submodules: self.submodules@,
        }
    }
}

impl Items {
    /// What holds of the sorted items of a module whose items passed the
    /// checks of their names and shapes. No name occurs twice among the
    /// assignments, among the settings, or among the aliases, recipes and
    /// modules taken together, and the shape of every recipe is without
    /// error.
    pub open spec fn wf(&self) -> bool {
        &&& self.aliases.wf()
        &&& self.assignments.wf()
        &&& self.recipes.wf()
        &&& self.sets.wf()
        &&& self.submodules.wf()
        &&& forall|a: int|
            0 <= a < self.aliases@.len() ==> !has_key(
                self.recipes@,
                (#[trigger] self.aliases@[a]).key_spec(),
            ) && !has_key(self.submodules@, self.aliases@[a].key_spec())
        &&& forall|i: int|
            0 <= i < self.recipes@.len() ==> !has_key(
                self.submodules@,
                (#[trigger] self.recipes@[i]).key_spec(),
            )
        &&& forall|i: int|
            0 <= i < self.recipes@.len() ==> first_fault(
                shape_faults(#[trigger] self.recipes@[i]),
            ) is None
    }

    pub fn new() -> (items: Items)
        ensures
            items.aliases@.len() == 0,
            items.assignments@.len() == 0,
            items.recipes@.len() == 0,
            items.sets@.len() == 0,
            items.submodules@.len() == 0,
            items.wf(),
    {
        Items {
            recipes: Table::new(),
            assignments: Table::new(),
            aliases: Table::new(),
            sets: Table::new(),
            submodules: Table::new(),
        }
    }
}

} // verus!
