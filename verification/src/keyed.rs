//! Values that are stored under a name of their own.

use std::rc::Rc;
use vstd::prelude::*;

verus! {

/// A value that is stored and found under a name of its own.
pub trait Keyed {
    /// The name under which the value is stored.
    spec fn key_spec(&self) -> Seq<char>;

    fn key(&self) -> (k: &str)
        ensures
            k@ == self.key_spec(),
    ;
}

impl<T: Keyed> Keyed for Rc<T> {
    open spec fn key_spec(&self) -> Seq<char> {
        (**self).key_spec()
    }

    fn key(&self) -> (k: &str) {
        (**self).key()
    }
}

impl<T: Keyed> Keyed for &T {
    open spec fn key_spec(&self) -> Seq<char> {
        (**self).key_spec()
    }

    fn key(&self) -> (k: &str) {
        (**self).key()
    }
}

} // verus!
