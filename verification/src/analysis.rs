//! What it means for the items of a module to be valid, and what error they
//! have where they are not.

use crate::alias::UnresolvedAlias;
use crate::assignment::Assignment;
use crate::assignment_resolver::{assignments_valid, is_assignment_error};
use crate::collision::collision_fault;
use crate::compilation_error::CompilationError;
use crate::compilation_error_kind::CompilationErrorKind;
use crate::fault::first_fault;
use crate::item::Item;
use crate::keyed::Keyed;
use crate::module::Module;
use crate::parameter::Parameter;
use crate::recipe::UnresolvedRecipe;
use crate::recipe_resolver::{is_recipe_error, is_resolution, recipes_valid};
use crate::setting::{SetItem, Setting, Settings};
use crate::shape::shape_faults;
use crate::sorting::{
    aliases_in,
    assignments_in,
    lemma_submodule_is_part,
    recipes_in,
    sets_in,
    submodules_in,
};
use crate::submodule::UnresolvedSubmodule;
use crate::table::{has_key, position};
use vstd::prelude::*;

verus! {

/// The items of a module, sorted by what they are, each sort in the order
/// of the source.
pub struct Parts {
    pub aliases: Seq<UnresolvedAlias>,
    pub assignments: Seq<Assignment>,
    pub recipes: Seq<UnresolvedRecipe>,
    pub sets: Seq<SetItem>,
    pub submodules: Seq<UnresolvedSubmodule>,
}

/// The items sorted.
pub open spec fn parts_of(items: Seq<Item>) -> Parts {
    Parts {
        aliases: aliases_in(items, items.len()),
        assignments: assignments_in(items, items.len()),
        recipes: recipes_in(items, items.len()),
        sets: sets_in(items, items.len()),
        submodules: submodules_in(items, items.len()),
    }
}

/// What is wrong with the shape of an item: that of a recipe is checked.
pub open spec fn item_fault(item: Item) -> Option<CompilationError> {
    match item {
        Item::Recipe(recipe) => first_fault(shape_faults(recipe)),
        _ => None,
    }
}

/// What the checks of the items themselves find: one for the name of each
/// item, then one for the shape of each.
pub open spec fn suite_faults(items: Seq<Item>) -> Seq<Option<CompilationError>> {
    Seq::new(items.len(), |j: int| collision_fault(items, j)) + Seq::new(
        items.len(),
        |j: int| item_fault(items[j]),
    )
}

/// What is wrong with a parameter: it must not have the name of a
/// variable.
pub open spec fn shadow_fault(parameter: Parameter, assignments: Seq<Assignment>) -> Option<
    CompilationError,
> {
    if has_key(assignments, parameter.name.lexeme@) {
        Some(
            CompilationError {
                token: parameter.name.token_spec(),
                kind: CompilationErrorKind::ParameterShadowsVariable {
                    parameter: parameter.name.lexeme,
                },
            },
        )
    } else {
        None
    }
}

/// What the check for shadowed variables finds for each parameter.
pub open spec fn shadow_faults(parameters: Seq<Parameter>, assignments: Seq<Assignment>) -> Seq<
    Option<CompilationError>,
> {
    Seq::new(parameters.len(), |p: int| shadow_fault(parameters[p], assignments))
}

/// What is wrong with an alias: it must stand for a recipe that exists.
pub open spec fn alias_fault(alias: UnresolvedAlias, recipes: Seq<UnresolvedRecipe>) -> Option<
    CompilationError,
> {
    if has_key(recipes, alias.target.lexeme@) {
        None
    } else {
        Some(
            CompilationError {
                token: alias.name.token_spec(),
                kind: CompilationErrorKind::UnknownAliasTarget {
                    alias: alias.name.lexeme,
                    target: alias.target.lexeme,
                },
            },
        )
    }
}

/// The settings that the first `n` `set` items make. Where a setting is
/// set more than once, the last counts.
pub open spec fn settings_of(sets: Seq<SetItem>, n: nat) -> Settings
    decreases n,
{
    if n == 0 || n > sets.len() {
        Settings { shell: None, module_experiment: false }
    } else {
        let before = settings_of(sets, (n - 1) as nat);
        match sets[n - 1].value {
            Setting::Shell(shell) => Settings {
                shell: Some(shell),
                module_experiment: before.module_experiment,
            },
            Setting::ModuleExperiment => Settings { shell: before.shell, module_experiment: true },
        }
    }
}

/// What is wrong with the use of modules: they need the setting that
/// allows them.
pub open spec fn module_fault(parts: Parts) -> Option<CompilationError> {
    if parts.submodules.len() > 0 && !settings_of(parts.sets, parts.sets.len()).module_experiment {
        Some(
            CompilationError {
                token: parts.submodules[0].name.token_spec(),
                kind: CompilationErrorKind::ForbiddenModule {
                    module: parts.submodules[0].name.lexeme,
                },
            },
        )
    } else {
        None
    }
}

/// What the checks find that are made once assignments and recipes are
/// resolved: for each recipe the first parameter that has the name of a
/// variable, then one for each alias, then one for the use of modules.
pub open spec fn late_faults(parts: Parts) -> Seq<Option<CompilationError>> {
    Seq::new(
        parts.recipes.len(),
        |i: int| first_fault(shadow_faults(parts.recipes[i].parameters@, parts.assignments)),
    ) + Seq::new(parts.aliases.len(), |a: int| alias_fault(parts.aliases[a], parts.recipes))
        + seq![module_fault(parts)]
}

/// Whether a module is valid but for the modules within it.
pub open spec fn flat_valid(parts: Parts) -> bool {
    &&& assignments_valid(parts.assignments)
    &&& recipes_valid(parts.recipes, parts.assignments)
    &&& first_fault(late_faults(parts)) is None
}

/// Whether `e` is the error of a module that is not valid, the modules
/// within it left aside. Assignments come first, then recipes, then the
/// later checks.
pub open spec fn is_flat_error(parts: Parts, e: CompilationError) -> bool {
    if !assignments_valid(parts.assignments) {
        is_assignment_error(parts.assignments, e)
    } else if !recipes_valid(parts.recipes, parts.assignments) {
        is_recipe_error(parts.recipes, parts.assignments, e)
    } else {
        first_fault(late_faults(parts)) == Some(e)
    }
}

/// Whether the items make a valid module: no check finds an error, in
/// them or in the modules within them.
pub open spec fn is_valid(items: Seq<Item>) -> bool
    decreases items, 1nat,
{
    &&& first_fault(suite_faults(items)) is None
    &&& flat_valid(parts_of(items))
    &&& forall|k: int|
        #![trigger parts_of(items).submodules[k]]
        0 <= k < parts_of(items).submodules.len() ==> submodule_valid(items, k)
}

/// Whether the `k`-th module among the items is valid.
pub open spec fn submodule_valid(items: Seq<Item>, k: int) -> bool
    decreases items, 0nat,
{
    if 0 <= k < submodules_in(items, items.len()).len() {
        proof {
            lemma_submodule_is_part(items, items.len(), k);
        }
        is_valid(submodules_in(items, items.len())[k].items.items@)
    } else {
        true
    }
}

/// Whether `e` is the error of items that do not make a valid module: the
/// first that a check of the items finds; else that of the module but for
/// the modules within it; else that of the first module within it that is
/// not valid.
pub open spec fn is_error_of(items: Seq<Item>, e: CompilationError) -> bool
    decreases items, 1nat,
{
    match first_fault(suite_faults(items)) {
        Some(fault) => e == fault,
        None => if !flat_valid(parts_of(items)) {
            is_flat_error(parts_of(items), e)
        } else {
            exists|k: int|
                #![trigger parts_of(items).submodules[k]]
                0 <= k < parts_of(items).submodules.len() && submodule_error(items, k, e) && forall|
                    j: int,
                |
                    #![trigger parts_of(items).submodules[j]]
                    0 <= j < k ==> submodule_valid(items, j)
        },
    }
}

/// Whether the `k`-th module among the items is not valid, with `e` as its
/// error.
pub open spec fn submodule_error(items: Seq<Item>, k: int, e: CompilationError) -> bool
    decreases items, 0nat,
{
    if 0 <= k < submodules_in(items, items.len()).len() {
        proof {
            lemma_submodule_is_part(items, items.len(), k);
        }
        !is_valid(submodules_in(items, items.len())[k].items.items@) && is_error_of(
            submodules_in(items, items.len())[k].items.items@,
            e,
        )
    } else {
        false
    }
}

/// Whether `module` is what the sorted items resolve to. It has their
/// assignments. Its recipes are theirs with the dependencies resolved, and
/// its aliases theirs with the targets resolved. Its settings are those
/// that they set, and its modules are what the modules within them resolve
/// to.
pub open spec fn is_module_of(parts: Parts, module: Module) -> bool
    decreases module,
{
    &&& module.assignments@ == parts.assignments
    &&& is_resolution(parts.recipes, module.recipes@)
    &&& module.aliases@.len() == parts.aliases.len()
    &&& forall|a: int|
        0 <= a < parts.aliases.len() ==> (#[trigger] module.aliases@[a]).name
            == parts.aliases[a].name
    &&& forall|a: int|
        0 <= a < parts.aliases.len() ==> (#[trigger] module.aliases@[a]).target
            == module.recipes@[position(parts.recipes, parts.aliases[a].target.lexeme@)]
    &&& module.settings == settings_of(parts.sets, parts.sets.len())
    &&& module.submodules@.len() == parts.submodules.len()
    &&& forall|s: int|
        0 <= s < parts.submodules.len() ==> (#[trigger] module.submodules@[s]).name
            == parts.submodules[s].name
    &&& forall|s: int|
        0 <= s < parts.submodules.len() ==> is_module_of(
            parts_of(parts.submodules[s].items.items@),
            (#[trigger] module.submodules@[s]).items,
        )
}

/// How deep modules are nested within the items: as deep as within the
/// first `n` modules among them.
pub open spec fn nesting_within(items: Seq<Item>, n: nat) -> nat
    decreases items, 0nat, n,
{
    if n == 0 || n > submodules_in(items, items.len()).len() {
        0
    } else {
        proof {
            lemma_submodule_is_part(items, items.len(), n - 1);
        }
        let before = nesting_within(items, (n - 1) as nat);
        let inner = 1 + nesting(submodules_in(items, items.len())[n - 1].items.items@);
        if before < inner {
            inner
        } else {
            before
        }
    }
}

/// How deep modules are nested within the items.
pub open spec fn nesting(items: Seq<Item>) -> nat
    decreases items, 1nat, 0nat,
{
    nesting_within(items, submodules_in(items, items.len()).len())
}

/// How deep modules are nested within the first `n` of `submodules`, these
/// counted.
pub open spec fn nesting_of(submodules: Seq<UnresolvedSubmodule>, n: nat) -> nat
    decreases n,
{
    if n == 0 || n > submodules.len() {
        0
    } else {
        let before = nesting_of(submodules, (n - 1) as nat);
        let inner = 1 + nesting(submodules[n - 1].items.items@);
        if before < inner {
            inner
        } else {
            before
        }
    }
}

pub proof fn lemma_nesting_within(items: Seq<Item>, n: nat)
    ensures
        nesting_within(items, n) == nesting_of(submodules_in(items, items.len()), n),
    decreases n,
{
    if n == 0 || n > submodules_in(items, items.len()).len() {
    } else {
        lemma_nesting_within(items, (n - 1) as nat);
    }
}

/// Each of the modules is nested less deep than all of them together.
pub proof fn lemma_nesting_of(submodules: Seq<UnresolvedSubmodule>, n: nat, k: int)
    requires
        0 <= k < n <= submodules.len(),
    ensures
        nesting(submodules[k].items.items@) < nesting_of(submodules, n),
    decreases n,
{
    if k < n - 1 {
        lemma_nesting_of(submodules, (n - 1) as nat, k);
    }
}

} // verus!
