//! The shape of a recipe: its parameters and the lines of its body.

use crate::compilation_error::CompilationError;
use crate::compilation_error_kind::CompilationErrorKind;
use crate::fault::{first_fault, lemma_first_fault_at, lemma_no_fault, lemma_no_fault_each};
use crate::line::{Fragment, Line};
use crate::parameter::Parameter;
use crate::recipe::UnresolvedRecipe;
use crate::strings::same;
use vstd::prelude::*;

verus! {

/// Whether a parameter before the `k`-th has the name of the `k`-th.
pub open spec fn is_repeated(parameters: Seq<Parameter>, k: int) -> bool {
    exists|j: int|
        0 <= j < k && (#[trigger] parameters[j]).name.lexeme@ == parameters[k].name.lexeme@
}

/// Whether a parameter before the `k`-th has a default.
pub open spec fn follows_default(parameters: Seq<Parameter>, k: int) -> bool {
    exists|j: int| 0 <= j < k && (#[trigger] parameters[j]).default is Some
}

/// What is wrong with the `k`-th parameter of a recipe: it must not repeat
/// a name, and where it needs an argument it must not follow a parameter
/// that has a default.
pub open spec fn parameter_fault(recipe: UnresolvedRecipe, k: int) -> Option<CompilationError> {
    let parameter = recipe.parameters@[k];
    if is_repeated(recipe.parameters@, k) {
        Some(
            CompilationError {
                token: parameter.name.token_spec(),
                kind: CompilationErrorKind::DuplicateParameter {
                    recipe: recipe.name.lexeme,
                    parameter: parameter.name.lexeme,
                },
            },
        )
    } else if parameter.is_required() && follows_default(recipe.parameters@, k) {
        Some(
            CompilationError {
                token: parameter.name.token_spec(),
                kind: CompilationErrorKind::RequiredParameterFollowsDefaultParameter {
                    parameter: parameter.name.lexeme,
                },
            },
        )
    } else {
        None
    }
}

/// Whether line `l` of a body begins a command: it is the first line or
/// the line before it is not continued.
pub open spec fn begins_command(body: Seq<Line>, l: int) -> bool {
    l == 0 || !body[l - 1].continues()
}

/// What is wrong with line `l` of a recipe: unless the recipe is a script,
/// a line that begins a command must not begin with whitespace.
pub open spec fn line_fault(recipe: UnresolvedRecipe, l: int) -> Option<CompilationError> {
    let line = recipe.body@[l];
    if !recipe.shebang && begins_command(recipe.body@, l) && line.has_leading_whitespace() {
        Some(
            CompilationError {
                token: line.fragments@[0]->token,
                kind: CompilationErrorKind::ExtraLeadingWhitespace,
            },
        )
    } else {
        None
    }
}

/// What the checks of the shape of a recipe find: one for each parameter,
/// then one for each line.
pub open spec fn shape_faults(recipe: UnresolvedRecipe) -> Seq<Option<CompilationError>> {
    Seq::new(recipe.parameters@.len(), |k: int| parameter_fault(recipe, k)) + Seq::new(
        recipe.body@.len(),
        |l: int| line_fault(recipe, l),
    )
}

/// Whether no two of the parameters have the same name.
pub open spec fn distinct_parameters(parameters: Seq<Parameter>) -> bool {
    forall|j: int, k: int|
        0 <= j < k < parameters.len() ==> (#[trigger] parameters[j]).name.lexeme@ != (
        #[trigger] parameters[k]).name.lexeme@
}

/// Whether no parameter that needs an argument comes after one that has a
/// default.
pub open spec fn defaults_last(parameters: Seq<Parameter>) -> bool {
    forall|j: int, k: int|
        0 <= j < k < parameters.len() && (#[trigger] parameters[j]).default is Some ==> !(
        #[trigger] parameters[k]).is_required()
}

/// A recipe whose shape has no error has parameters with distinct names,
/// of which those that need an argument come first.
pub proof fn lemma_shape_of_parameters(recipe: UnresolvedRecipe)
    requires
        first_fault(shape_faults(recipe)) is None,
    ensures
        distinct_parameters(recipe.parameters@),
        defaults_last(recipe.parameters@),
{
    let parameters = recipe.parameters@;
    assert forall|j: int, k: int| 0 <= j < k < parameters.len() implies (
    #[trigger] parameters[j]).name.lexeme@ != (#[trigger] parameters[k]).name.lexeme@ && (
    parameters[j].default is Some ==> !parameters[k].is_required()) by {
        lemma_no_fault_each(shape_faults(recipe), k);
        assert(shape_faults(recipe)[k] == parameter_fault(recipe, k));
    }
}

/// A recipe in which a parameter that needs an argument comes directly
/// after one that has a default is rejected.
pub proof fn lemma_required_after_default(recipe: UnresolvedRecipe, k: int)
    requires
        0 <= k,
        k + 1 < recipe.parameters@.len(),
        recipe.parameters@[k].default is Some,
        recipe.parameters@[k + 1].is_required(),
    ensures
        first_fault(shape_faults(recipe)) is Some,
{
    if first_fault(shape_faults(recipe)) is None {
        lemma_shape_of_parameters(recipe);
        assert(!recipe.parameters@[k + 1].is_required());
    }
}

/// A recipe in which the parameter at `k` repeats the name of an earlier
/// one is rejected, and where no parameter before it is at fault, for that
/// duplicate.
pub proof fn lemma_duplicate_parameter(recipe: UnresolvedRecipe, k: int)
    requires
        0 <= k < recipe.parameters@.len(),
        is_repeated(recipe.parameters@, k),
    ensures
        first_fault(shape_faults(recipe)) is Some,
        (forall|j: int| 0 <= j < k ==> parameter_fault(recipe, j) is None) ==> first_fault(
            shape_faults(recipe),
        ) == parameter_fault(recipe, k) && first_fault(
            shape_faults(recipe),
        )->0.kind is DuplicateParameter,
{
    let faults = shape_faults(recipe);
    assert(faults[k] == parameter_fault(recipe, k));
    if first_fault(faults) is None {
        lemma_no_fault_each(faults, k);
    }
    if forall|j: int| 0 <= j < k ==> parameter_fault(recipe, j) is None {
        assert forall|j: int| 0 <= j < k implies faults[j] is None by {
            assert(faults[j] == parameter_fault(recipe, j));
        }
        lemma_first_fault_at(faults, k);
    }
}

/// Checks the shape of a recipe: its parameters, then the lines of its
/// body.
pub fn check_shape(recipe: &UnresolvedRecipe) -> (result: Result<(), CompilationError>)
    ensures
        match result {
            Ok(()) => first_fault(shape_faults(*recipe)) is None,
            Err(e) => first_fault(shape_faults(*recipe)) == Some(e),
        },
{
    let ghost faults = shape_faults(*recipe);
    let count = recipe.parameters.len();
    let mut passed_default = false;
    let mut k: usize = 0;
    while k < count
        invariant
            count == recipe.parameters@.len(),
            faults == shape_faults(*recipe),
            k <= count,
            passed_default == follows_default(recipe.parameters@, k as int),
            forall|s: int| 0 <= s < k ==> (#[trigger] faults[s]) is None,
        decreases count - k,
    {
        let parameter = &recipe.parameters[k];
        assert(faults[k as int] == parameter_fault(*recipe, k as int));
        let mut j: usize = 0;
        while j < k
            invariant
                k < recipe.parameters@.len(),
                *parameter == recipe.parameters@[k as int],
                j <= k,
                faults == shape_faults(*recipe),
                forall|s: int| 0 <= s < k ==> (#[trigger] faults[s]) is None,
                forall|s: int|
                    0 <= s < j ==> (#[trigger] recipe.parameters@[s]).name.lexeme@
                        != parameter.name.lexeme@,
            decreases k - j,
        {
            if same(recipe.parameters[j].name.lexeme(), parameter.name.lexeme()) {
                let error = parameter.name.error(
                    CompilationErrorKind::DuplicateParameter {
                        recipe: recipe.name.lexeme.clone(),
                        parameter: parameter.name.lexeme.clone(),
                    },
                );
                proof {
                    assert(faults[k as int] == parameter_fault(*recipe, k as int));
                    lemma_first_fault_at(faults, k as int);
                }
                return Err(error);
            }
            j += 1;
        }
        if parameter.default.is_some() {
            passed_default = true;
        } else if passed_default && !parameter.variadic() {
            let error = parameter.name.error(
                CompilationErrorKind::RequiredParameterFollowsDefaultParameter {
                    parameter: parameter.name.lexeme.clone(),
                },
            );
            proof {
                lemma_first_fault_at(faults, k as int);
            }
            return Err(error);
        }
        proof {
            if follows_default(recipe.parameters@, k + 1) {
                let w = choose|w: int|
                    0 <= w < k + 1 && (#[trigger] recipe.parameters@[w]).default is Some;
                if w < k {
                    assert(follows_default(recipe.parameters@, k as int));
                }
            }
        }
        k += 1;
    }
    let lines = recipe.body.len();
    let mut continued = false;
    let mut l: usize = 0;
    while l < lines
        invariant
            count == recipe.parameters@.len(),
            lines == recipe.body@.len(),
            faults == shape_faults(*recipe),
            l <= lines,
            continued == !begins_command(recipe.body@, l as int),
            forall|s: int| 0 <= s < count + l ==> (#[trigger] faults[s]) is None,
        decreases lines - l,
    {
        let line = &recipe.body[l];
        assert(faults[count + l] == line_fault(*recipe, l as int));
        if !recipe.shebang && !continued && line.is_indented() {
            match &line.fragments[0] {
                Fragment::Text { token } => {
                    let error = token.error(CompilationErrorKind::ExtraLeadingWhitespace);
                    proof {
                        lemma_first_fault_at(faults, count + l);
                    }
                    return Err(error);
                },
                Fragment::Interpolation { .. } => {},
            }
        }
        continued = line.is_continuation();
        l += 1;
    }
    proof {
        lemma_no_fault(faults);
    }
    Ok(())
}

} // verus!
