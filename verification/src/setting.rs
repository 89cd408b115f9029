//! The settings of a module.

use crate::expression::StringLiteral;
use crate::keyed::Keyed;
use crate::token::Name;
use vstd::prelude::*;

verus! {

/// What a `set` item sets.
#[derive(Debug, PartialEq)]
pub enum Setting {
    /// The shell that runs the commands.
    Shell(Shell),
    /// That modules may be used.
    ModuleExperiment,
}

/// A shell: the command and the arguments that come before a recipe line.
#[derive(Debug, PartialEq)]
pub struct Shell {
    pub command: StringLiteral,
    pub arguments: Vec<StringLiteral>,
}

/// A `set` item.
#[derive(Debug, PartialEq)]
pub struct SetItem {
    pub name: Name,
    pub value: Setting,
}

impl Keyed for SetItem {
    open spec fn key_spec(&self) -> Seq<char> {
        self.name.lexeme@
    }

    fn key(&self) -> (k: &str) {
        self.name.lexeme()
    }
}

/// The settings of a module.
#[derive(Debug, PartialEq)]
pub struct Settings {
    pub shell: Option<Shell>,
    pub module_experiment: bool,
}

impl Settings {
    /// The settings of a module that sets nothing.
    pub fn new() -> (s: Settings)
        ensures
            s == (Settings { shell: None, module_experiment: false }),
    {
        Settings { shell: None, module_experiment: false }
    }
}

} // verus!
