//! Groups: recipes with the arguments of the command line that they take.

use crate::recipe::Recipe;
use vstd::prelude::*;

verus! {

/// A recipe that is to run and the arguments that it is to run with.
#[derive(Debug, PartialEq)]
pub struct Group<'run> {
    pub recipe: &'run Recipe,
    pub arguments: &'run [String],
}

/// What a group holds.
pub struct Planned {
    pub recipe: Recipe,
    pub arguments: Seq<String>,
}

impl<'run> View for Group<'run> {
    type V = Planned;

    open spec fn view(&self) -> Planned {
        Planned { recipe: *self.recipe, arguments: self.arguments@ }
    }
}

/// What a row of groups holds.
pub open spec fn planned(groups: Seq<Group>) -> Seq<Planned> {
    Seq::new(groups.len(), |i: int| groups[i]@)
}

} // verus!
