//! The namespaces of a module.

use vstd::prelude::*;

verus! {

/// The three spaces of names within a module. Names of one space do not
/// conflict with names of another.
#[derive(Debug, PartialEq, Eq, Clone, Copy, Structural)]
pub enum Namespace {
    Recipe,
    Assignment,
    Setting,
}

impl Namespace {
    /// The word for this namespace in messages.
    pub open spec fn label(self) -> Seq<char> {
        match self {
            Namespace::Recipe => "recipe"@,
            Namespace::Assignment => "assignment"@,
            Namespace::Setting => "setting"@,
        }
    }

    pub fn to_string(&self) -> (s: String)
        ensures
            s@ == self.label(),
    {
        match self {
            Namespace::Recipe => String::from_str("recipe"),
            Namespace::Assignment => String::from_str("assignment"),
            Namespace::Setting => String::from_str("setting"),
        }
    }
}

} // verus!
