//! Recipes, before and after their dependencies are resolved.

use crate::expression::Expression;
use crate::keyed::Keyed;
use crate::line::Line;
use crate::parameter::{max_arguments, max_arguments_of, min_arguments, min_arguments_of, Parameter};
use crate::token::Name;
use std::rc::Rc;
use vstd::prelude::*;

verus! {

/// A dependency as the source names it.
#[derive(Debug, PartialEq)]
pub struct UnresolvedDependency {
    /// The name of the recipe that is to run first.
    pub recipe: Name,
    /// The arguments that it is to run with.
    pub arguments: Vec<Expression>,
}

/// A recipe as the source writes it: its dependencies are names.
#[derive(Debug, PartialEq)]
pub struct UnresolvedRecipe {
    pub name: Name,
    pub parameters: Vec<Parameter>,
    pub dependencies: Vec<UnresolvedDependency>,
    pub body: Vec<Line>,
    /// Whether the body is a script that begins with `#!`.
    pub shebang: bool,
    /// Whether the recipe's commands are not echoed.
    pub quiet: bool,
    /// Whether the recipe is left out of listings.
    pub private: bool,
    /// The comment above the recipe.
    pub doc: Option<String>,
}

/// A dependency on a recipe that was found.
#[derive(Debug, PartialEq)]
pub struct Dependency {
    pub recipe: Rc<Recipe>,
    pub arguments: Vec<Expression>,
}

/// A recipe whose dependencies are the recipes themselves.
#[derive(Debug, PartialEq)]
pub struct Recipe {
    pub name: Name,
    pub parameters: Vec<Parameter>,
    pub dependencies: Vec<Dependency>,
    pub body: Vec<Line>,
    pub shebang: bool,
    pub quiet: bool,
    pub private: bool,
    pub doc: Option<String>,
}

/// The numbers of arguments that a recipe accepts: the least and the
/// greatest, both included.
#[derive(Debug, PartialEq, Eq, Clone, Copy, Structural)]
pub struct ArgumentRange {
    pub min: usize,
    pub max: usize,
}

impl ArgumentRange {
    pub open spec fn holds(&self, count: usize) -> bool {
        self.min <= count <= self.max
    }

    pub fn range_contains(&self, count: usize) -> (b: bool)
        ensures
            b == self.holds(count),
    {
        self.min <= count && count <= self.max
    }
}

impl UnresolvedRecipe {
    pub open spec fn argument_range_spec(&self) -> ArgumentRange {
        ArgumentRange {
            min: min_arguments_of(self.parameters@) as usize,
            max: max_arguments_of(self.parameters@) as usize,
        }
    }

    pub fn name(&self) -> (s: &str)
        ensures
            s@ == self.name.lexeme@,
    {
        self.name.lexeme()
    }

    pub fn min_arguments(&self) -> (r: usize)
        ensures
            r == min_arguments_of(self.parameters@),
    {
        min_arguments(&self.parameters)
    }

    pub fn max_arguments(&self) -> (r: usize)
        ensures
            r == max_arguments_of(self.parameters@),
    {
        max_arguments(&self.parameters)
    }

    pub fn argument_range(&self) -> (r: ArgumentRange)
        ensures
            r == self.argument_range_spec(),
            r.min == min_arguments_of(self.parameters@),
            r.max == max_arguments_of(self.parameters@),
    {
        ArgumentRange { min: self.min_arguments(), max: self.max_arguments() }
    }
}

impl Recipe {
    pub open spec fn argument_range_spec(&self) -> ArgumentRange {
        ArgumentRange {
            min: min_arguments_of(self.parameters@) as usize,
            max: max_arguments_of(self.parameters@) as usize,
        }
    }

    pub fn name(&self) -> (s: &str)
        ensures
            s@ == self.name.lexeme@,
    {
        self.name.lexeme()
    }

    /// The line on which the recipe begins.
    pub fn line_number(&self) -> (n: usize)
        ensures
            n == self.name.line,
    {
        self.name.line
    }

    pub fn min_arguments(&self) -> (r: usize)
        ensures
            r == min_arguments_of(self.parameters@),
    {
        min_arguments(&self.parameters)
    }

    pub fn max_arguments(&self) -> (r: usize)
        ensures
            r == max_arguments_of(self.parameters@),
    {
        max_arguments(&self.parameters)
    }

    pub fn argument_range(&self) -> (r: ArgumentRange)
        ensures
            r == self.argument_range_spec(),
            r.min == min_arguments_of(self.parameters@),
            r.max == max_arguments_of(self.parameters@),
    {
        ArgumentRange { min: self.min_arguments(), max: self.max_arguments() }
    }
}

impl Keyed for UnresolvedRecipe {
    open spec fn key_spec(&self) -> Seq<char> {
        self.name.lexeme@
    }

    fn key(&self) -> (k: &str) {
        self.name.lexeme()
    }
}

impl Keyed for Recipe {
    open spec fn key_spec(&self) -> Seq<char> {
        self.name.lexeme@
    }

    fn key(&self) -> (k: &str) {
        self.name.lexeme()
    }
}

} // verus!
