//! The kinds of error in a manifest.

use crate::namespace::Namespace;
use crate::token::TokenKind;
use vstd::prelude::*;

verus! {

/// What can be wrong with a manifest.
#[derive(Debug, PartialEq)]
#[allow(inconsistent_fields)]
pub enum CompilationErrorKind {
    CircularRecipeDependency { recipe: String, circle: Vec<String> },
    CircularVariableDependency { variable: String, circle: Vec<String> },
    Collision {
        first: usize,
        first_kind: &'static str,
        kind: &'static str,
        name: String,
        namespace: Namespace,
    },
    DependencyArgumentCountMismatch { dependency: String, found: usize, min: usize, max: usize },
    DuplicateParameter { recipe: String, parameter: String },
    ExtraLeadingWhitespace,
    ForbiddenModule { module: String },
    FunctionArgumentCountMismatch { function: String, found: usize, expected: usize },
    InconsistentLeadingWhitespace { expected: String, found: String },
    Internal { message: String },
    InvalidEscapeSequence { character: char },
    MixedLeadingWhitespace { whitespace: String },
    ParameterFollowsVariadicParameter { parameter: String },
    ParameterShadowsVariable { parameter: String },
    RequiredParameterFollowsDefaultParameter { parameter: String },
    UndefinedVariable { variable: String },
    UnexpectedName { expected: &'static str, found: String },
    UnexpectedToken { expected: Vec<TokenKind>, found: TokenKind },
    UnknownAliasTarget { alias: String, target: String },
    UnknownDependency { recipe: String, unknown: String },
    UnknownFunction { function: String },
    UnknownSetting { setting: String },
    UnknownStartOfToken,
    UnpairedCarriageReturn,
    UnterminatedBacktick,
    UnterminatedInterpolation,
    UnterminatedString,
}

} // verus!
