//! The items of a module as the parser hands them over.

use crate::item::Item;
use vstd::prelude::*;

verus! {

/// The items of a module in the order of the source.
#[derive(Debug, PartialEq)]
pub struct Suite {
    pub items: Vec<Item>,
}

impl Suite {
    pub fn new() -> (s: Suite)
        ensures
            s.items@ == Seq::<Item>::empty(),
    {
        Suite { items: Vec::new() }
    }
}

} // verus!
