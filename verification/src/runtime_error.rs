//! What can go wrong when recipes are run.

use crate::parameter::Parameter;
use vstd::prelude::*;

verus! {

/// What can go wrong when recipes are run.
#[derive(Debug, PartialEq)]
pub enum RuntimeError<'run> {
    /// A recipe got a number of arguments that it does not accept.
    ArgumentCountMismatch {
        recipe: &'run str,
        parameters: &'run Vec<Parameter>,
        found: usize,
        min: usize,
        max: usize,
    },
    /// A command of a recipe failed.
    Code { recipe: &'run str, line_number: Option<usize>, code: i32 },
    /// No recipe was named, and the first recipe needs arguments.
    DefaultRecipeRequiresArguments { recipe: &'run str, min_arguments: usize },
    /// No recipe was named, and there is none.
    NoRecipes,
    /// A module was named, and no recipe in it.
    SubmoduleRequiresRecipe { module: &'run str },
    /// Variables were given values that no assignment defines.
    UnknownOverrides { overrides: Vec<&'run str> },
    /// A name was given that is neither a recipe nor an alias nor a module.
    UnknownRecipe { recipe: &'run str, suggestion: Option<&'run str> },
}

/// What a runtime error says, with texts in place of strings.
pub enum Refusal {
    ArgumentCountMismatch {
        recipe: Seq<char>,
        parameters: Seq<Parameter>,
        found: nat,
        min: nat,
        max: nat,
    },
    Code { recipe: Seq<char>, line_number: Option<usize>, code: i32 },
    DefaultRecipeRequiresArguments { recipe: Seq<char>, min_arguments: nat },
    NoRecipes,
    SubmoduleRequiresRecipe { module: Seq<char> },
    UnknownOverrides { overrides: Seq<Seq<char>> },
    UnknownRecipe { recipe: Seq<char>, suggestion: Option<Seq<char>> },
}

impl<'run> View for RuntimeError<'run> {
    type V = Refusal;

    open spec fn view(&self) -> Refusal {
        match *self {
            RuntimeError::ArgumentCountMismatch { recipe, parameters, found, min, max } =>
                Refusal::ArgumentCountMismatch {
                    recipe: recipe@,
                    parameters: parameters@,
                    found: found as nat,
                    min: min as nat,
                    max: max as nat,
                },
            RuntimeError::Code { recipe, line_number, code } => Refusal::Code {
                recipe: recipe@,
                line_number,
                code,
            },
            RuntimeError::DefaultRecipeRequiresArguments { recipe, min_arguments } =>
                Refusal::DefaultRecipeRequiresArguments {
                    recipe: recipe@,
                    min_arguments: min_arguments as nat,
                },
            RuntimeError::NoRecipes => Refusal::NoRecipes,
            RuntimeError::SubmoduleRequiresRecipe { module } => Refusal::SubmoduleRequiresRecipe {
                module: module@,
            },
            RuntimeError::UnknownOverrides { overrides } => Refusal::UnknownOverrides {
                overrides: Seq::new(overrides@.len(), |i: int| overrides@[i]@),
            },
            RuntimeError::UnknownRecipe { recipe, suggestion } => Refusal::UnknownRecipe {
                recipe: recipe@,
                suggestion: match suggestion {
                    Some(s) => Some(s@),
                    None => None,
                },
            },
        }
    }
}

} // verus!
