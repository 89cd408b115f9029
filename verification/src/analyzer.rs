//! The analyzer: it checks the items of a manifest and resolves their names.

use crate::alias::{Alias, UnresolvedAlias};
use crate::analysis::{
    alias_fault,
    flat_valid,
    is_error_of,
    is_flat_error,
    is_module_of,
    is_valid,
    late_faults,
    lemma_nesting_of,
    lemma_nesting_within,
    module_fault,
    nesting,
    nesting_of,
    parts_of,
    settings_of,
    shadow_faults,
    submodule_error,
    submodule_valid,
    suite_faults,
    Parts,
};
use crate::assignment::Assignment;
use crate::assignment_resolver::AssignmentResolver;
use crate::collision::{collision, collision_fault, find_match};
use crate::compilation_error::CompilationError;
use crate::compilation_error_kind::CompilationErrorKind;
use crate::fault::{first_fault, lemma_first_fault_at, lemma_no_fault, lemma_no_fault_each};
use crate::item::Item;
use crate::items::Items;
use crate::justfile::Justfile;
use crate::keyed::Keyed;
use crate::module::{recipe_wf, Module};
use crate::parse::Parse;
use crate::recipe::{Recipe, UnresolvedRecipe};
use crate::recipe_resolver::{
    dependency_fault,
    is_built,
    is_resolution,
    recipe_faults,
    recipe_graph,
    resolution_faults,
    RecipeResolver,
};
use crate::setting::{SetItem, Setting, Settings};
use crate::shape::{check_shape, lemma_shape_of_parameters, shape_faults};
use crate::sorting::{
    aliases_in,
    assignments_in,
    lemma_aliases_in,
    lemma_assignments_in,
    lemma_recipes_in,
    lemma_sets_in,
    lemma_submodules_in,
    recipes_in,
    sets_in,
    submodules_in,
};
use crate::submodule::{Submodule, UnresolvedSubmodule};
use crate::suite::Suite;
use crate::table::{distinct_keys, has_key, lemma_position, position, Table};
use std::rc::Rc;
use vstd::prelude::*;

verus! {

/// Values that have the same keys at the same positions are found under
/// the same keys at the same positions.
pub proof fn lemma_same_keys<A: Keyed, B: Keyed>(a: Seq<A>, b: Seq<B>, key: Seq<char>)
    requires
        a.len() == b.len(),
        forall|i: int| 0 <= i < a.len() ==> (#[trigger] a[i]).key_spec() == b[i].key_spec(),
        distinct_keys(a),
    ensures
        distinct_keys(b),
        has_key(a, key) == has_key(b, key),
        has_key(a, key) ==> position(a, key) == position(b, key),
{
    assert forall|i: int, j: int| 0 <= i < j < b.len() implies (#[trigger] b[i]).key_spec() != (
    #[trigger] b[j]).key_spec() by {
        assert(a[i].key_spec() == b[i].key_spec());
        assert(a[j].key_spec() == b[j].key_spec());
    }
    if has_key(a, key) {
        let i = position(a, key);
        assert(a[i].key_spec() == b[i].key_spec());
        lemma_position(b, key, i);
    }
    if has_key(b, key) {
        let i = position(b, key);
        assert(a[i].key_spec() == b[i].key_spec());
        lemma_position(a, key, i);
    }
}

/// Resolved recipes have the names of the recipes that they come from.
pub proof fn lemma_resolved_keys(recipes: Seq<UnresolvedRecipe>, resolved: Seq<Rc<Recipe>>)
    requires
        is_resolution(recipes, resolved),
    ensures
        forall|i: int|
            0 <= i < recipes.len() ==> (#[trigger] recipes[i]).key_spec() == resolved[i].key_spec(),
{
    assert forall|i: int| 0 <= i < recipes.len() implies (#[trigger] recipes[i]).key_spec()
        == resolved[i].key_spec() by {
        assert(is_built(
            recipes[i],
            recipe_graph(recipes)[i],
            *resolved[i],
            resolved.map_values(|r: Rc<Recipe>| Some(r)),
        ));
    }
}

/// Recipes that were resolved without error, whose shape is without error
/// and of whose parameters none has the name of a variable, are well
/// formed.
pub proof fn lemma_recipes_wf(
    recipes: Seq<UnresolvedRecipe>,
    assignments: Seq<Assignment>,
    resolved: Seq<Rc<Recipe>>,
    i: int,
)
    requires
        distinct_keys(recipes),
        recipes.len() <= usize::MAX,
        is_resolution(recipes, resolved),
        first_fault(resolution_faults(recipes, assignments)) is None,
        0 <= i < recipes.len(),
        first_fault(shape_faults(recipes[i])) is None,
        first_fault(shadow_faults(recipes[i].parameters@, assignments)) is None,
    ensures
        recipe_wf(*resolved[i], assignments, resolved),
{
    let recipe = *resolved[i];
    let slots = resolved.map_values(|r: Rc<Recipe>| Some(r));
    assert(is_built(recipes[i], recipe_graph(recipes)[i], recipe, slots));
    lemma_shape_of_parameters(recipes[i]);
    lemma_resolved_keys(recipes, resolved);
    assert forall|p: int| 0 <= p < recipe.parameters@.len() implies !has_key(
        assignments,
        (#[trigger] recipe.parameters@[p]).name.lexeme@,
    ) by {
        lemma_no_fault_each(shadow_faults(recipes[i].parameters@, assignments), p);
    }
    lemma_no_fault_each(resolution_faults(recipes, assignments), i);
    assert forall|d: int| 0 <= d < recipe.dependencies@.len() implies {
        let dependency = #[trigger] recipe.dependencies@[d];
        &&& has_key(resolved, dependency.recipe.key_spec())
        &&& resolved[position(resolved, dependency.recipe.key_spec())] == dependency.recipe
        &&& dependency.recipe.argument_range_spec().holds(dependency.arguments@.len() as usize)
    } by {
        let dependency = recipe.dependencies@[d];
        let name = recipes[i].dependencies@[d].recipe.lexeme@;
        lemma_no_fault_each(recipe_faults(recipes, assignments, i), d);
        assert(recipe_faults(recipes, assignments, i)[d] == dependency_fault(recipes, i, d));
        assert(has_key(recipes, name));
        let j = position(recipes, name);
        assert(recipe_graph(recipes)[i][d] == j as usize);
        assert(slots[recipe_graph(recipes)[i][d] as int] == Some(recipe.dependencies@[d].recipe));
        assert(slots[j] == Some(dependency.recipe));
        assert(resolved[j] == dependency.recipe);
        assert(recipes[j].key_spec() == resolved[j].key_spec());
        lemma_position(resolved, dependency.recipe.key_spec(), j);
        assert(is_built(recipes[j], recipe_graph(recipes)[j], *resolved[j], slots));
        assert(dependency.arguments == recipes[i].dependencies@[d].arguments);
    }
}

pub struct Analyzer;

impl Analyzer {
    /// Analyzes what the parser produced.
    pub fn analyze(parse: Parse) -> (result: Result<Justfile, CompilationError>)
        ensures
            match result {
                Ok(justfile) => is_valid(parse.suite.items@) && is_module_of(
                    parts_of(parse.suite.items@),
                    justfile.root,
                ) && justfile.root.wf() && justfile.warnings == parse.warnings,
                Err(e) => !is_valid(parse.suite.items@) && is_error_of(parse.suite.items@, e),
            },
    {
        let analyzer = Analyzer::new();
        analyzer.justfile(parse)
    }

    pub fn new() -> (analyzer: Analyzer)
        ensures
            analyzer == Analyzer,
    {
        Analyzer
    }

    /// The manifest that a parse stands for: its root module, analyzed,
    /// with the warnings of the parser.
    pub fn justfile(self, parse: Parse) -> (result: Result<Justfile, CompilationError>)
        ensures
            match result {
                Ok(justfile) => is_valid(parse.suite.items@) && is_module_of(
                    parts_of(parse.suite.items@),
                    justfile.root,
                ) && justfile.root.wf() && justfile.warnings == parse.warnings,
                Err(e) => !is_valid(parse.suite.items@) && is_error_of(parse.suite.items@, e),
            },
    {
        let mut analyzer = self;
        let Parse { suite, warnings } = parse;
        match analyzer.analyze_suite(suite) {
            Ok(root) => Ok(Justfile { warnings, root }),
            Err(error) => Err(error),
        }
    }

    /// Checks the shape of a recipe: that no parameter repeats a name, that
    /// no parameter which needs an argument follows one that has a default,
    /// and that no line which begins a command begins with whitespace, unless
    /// the body is a script.
    pub fn analyze_recipe(&self, recipe: &UnresolvedRecipe) -> (result: Result<
        (),
        CompilationError,
    >)
        ensures
            match result {
                Ok(()) => first_fault(shape_faults(*recipe)) is None,
                Err(e) => first_fault(shape_faults(*recipe)) == Some(e),
            },
    {
        check_shape(recipe)
    }

    /// Resolves an alias: its target is the recipe that it names.
    pub fn resolve_alias(recipes: &Table<Rc<Recipe>>, alias: UnresolvedAlias) -> (result: Result<
        Alias,
        CompilationError,
    >)
        requires
            recipes.wf(),
        ensures
            match result {
                Ok(resolved) => recipes.contains(alias.target.lexeme@) && resolved.name
                    == alias.name && resolved.target == recipes.at(alias.target.lexeme@),
                Err(e) => !recipes.contains(alias.target.lexeme@) && e == (CompilationError {
                    token: alias.name.token_spec(),
                    kind: CompilationErrorKind::UnknownAliasTarget {
                        alias: alias.name.lexeme,
                        target: alias.target.lexeme,
                    },
                }),
            },
    {
        match recipes.get(alias.target.lexeme()) {
            Some(target) => {
                let target = target.clone();
                Ok(alias.resolve(target))
            },
            None => Err(
                alias.name.error(
                    CompilationErrorKind::UnknownAliasTarget {
                        alias: alias.name.lexeme.clone(),
                        target: alias.target.lexeme.clone(),
                    },
                ),
            ),
        }
    }

    /// Analyzes a module within a module.
    pub fn resolve_submodule(&mut self, submodule: UnresolvedSubmodule) -> (result: Result<
        Submodule,
        CompilationError,
    >)
        ensures
            match result {
                Ok(resolved) => is_valid(submodule.items.items@) && resolved.name == submodule.name
                    && is_module_of(parts_of(submodule.items.items@), resolved.items)
                    && resolved.items.wf(),
                Err(e) => !is_valid(submodule.items.items@) && is_error_of(
                    submodule.items.items@,
                    e,
                ),
            },
        decreases nesting(submodule.items.items@), 2nat,
    {
        let UnresolvedSubmodule { name, items } = submodule;
        match self.analyze_suite(items) {
            Ok(module) => Ok(Submodule { name, items: module }),
            Err(error) => Err(error),
        }
    }

    /// Resolves the sorted items of a module: the assignments, then the
    /// recipes; then no parameter may have the name of a variable; then the
    /// aliases, the settings and the modules within the module.
    #[verifier::loop_isolation(false)]
    pub fn resolve_items(&mut self, items: Items) -> (result: Result<Module, CompilationError>)
        requires
            items.wf(),
        ensures
            match result {
                Ok(module) => flat_valid(items@) && is_module_of(items@, module) && module.wf()
                    && forall|k: int|
                    0 <= k < items.submodules@.len() ==> is_valid(
                        (#[trigger] items.submodules@[k]).items.items@,
                    ),
                Err(e) => if !flat_valid(items@) {
                    is_flat_error(items@, e)
                } else {
                    exists|k: int|
                        0 <= k < items.submodules@.len() && !is_valid(
                            (#[trigger] items.submodules@[k]).items.items@,
                        ) && is_error_of(items.submodules@[k].items.items@, e) && forall|j: int|
                            0 <= j < k ==> is_valid((#[trigger] items.submodules@[j]).items.items@)
                },
            },
        decreases nesting_of(items.submodules@, items.submodules@.len()), 0nat,
    {
        let ghost parts = items@;
        let ghost late = late_faults(parts);
        let Items { aliases, assignments, recipes, sets, submodules } = items;
        match AssignmentResolver::resolve_assignments(&assignments) {
            Err(error) => {
                return Err(error);
            },
            Ok(()) => {},
        }
        let resolved = match RecipeResolver::resolve_recipes(recipes, &assignments) {
            Err(error) => {
                return Err(error);
            },
            Ok(resolved) => resolved,
        };
        proof {
            lemma_resolved_keys(parts.recipes, resolved@);
        }
        let count = resolved.len();
        let mut i: usize = 0;
        while i < count
            invariant
                parts == (Parts {
                    aliases: aliases@,
                    assignments: assignments@,
                    recipes: parts.recipes,
                    sets: sets@,
                    submodules: submodules@,
                }),
                late == late_faults(parts),
                is_resolution(parts.recipes, resolved@),
                count == resolved@.len(),
                i <= count,
                forall|s: int| 0 <= s < i ==> (#[trigger] late[s]) is None,
            decreases count - i,
        {
            let recipe = &resolved.values()[i];
            let ghost faults = shadow_faults(parts.recipes[i as int].parameters@, assignments@);
            proof {
                assert(is_built(
                    parts.recipes[i as int],
                    recipe_graph(parts.recipes)[i as int],
                    *resolved@[i as int],
                    resolved@.map_values(|r: Rc<Recipe>| Some(r)),
                ));
                assert(late[i as int] == first_fault(faults));
            }
            let mut p: usize = 0;
            while p < recipe.parameters.len()
                invariant
                    recipe.parameters == parts.recipes[i as int].parameters,
                    faults == shadow_faults(parts.recipes[i as int].parameters@, assignments@),
                    p <= recipe.parameters@.len(),
                    i < late.len(),
                    late[i as int] == first_fault(faults),
                    forall|s: int| 0 <= s < i ==> (#[trigger] late[s]) is None,
                    forall|q: int| 0 <= q < p ==> (#[trigger] faults[q]) is None,
                decreases recipe.parameters@.len() - p,
            {
                let parameter = &recipe.parameters[p];
                if assignments.contains_key(parameter.name.lexeme()) {
                    let error = parameter.name.error(
                        CompilationErrorKind::ParameterShadowsVariable {
                            parameter: parameter.name.lexeme.clone(),
                        },
                    );
                    proof {
                        lemma_first_fault_at(faults, p as int);
                        lemma_first_fault_at(late, i as int);
                    }
                    return Err(error);
                }
                p += 1;
            }
            proof {
                lemma_no_fault(faults);
            }
            i += 1;
        }
        let mut resolved_aliases: Table<Alias> = Table::new();
        let alias_count = aliases.len();
        let mut a: usize = 0;
        for alias in it: aliases.entries
            invariant
                it.seq() == parts.aliases,
                a == it.index(),
                a <= alias_count,
                parts.assignments == assignments@,
                late == late_faults(parts),
                count == parts.recipes.len(),
                distinct_keys(parts.aliases),
                distinct_keys(parts.recipes),
                resolved.wf(),
                is_resolution(parts.recipes, resolved@),
                forall|s: int|
                    0 <= s < parts.recipes.len() ==> (#[trigger] parts.recipes[s]).key_spec()
                        == resolved@[s].key_spec(),
                forall|s: int| 0 <= s < count + a ==> (#[trigger] late[s]) is None,
                resolved_aliases.wf(),
                resolved_aliases@.len() == a,
                forall|s: int|
                    0 <= s < a ==> (#[trigger] resolved_aliases@[s]).name == parts.aliases[s].name,
                forall|s: int|
                    0 <= s < a ==> (#[trigger] resolved_aliases@[s]).target
                        == resolved@[position(parts.recipes, parts.aliases[s].target.lexeme@)],
        {
            proof {
                lemma_same_keys(parts.recipes, resolved@, alias.target.lexeme@);
                assert(late[count + a] == alias_fault(parts.aliases[a as int], parts.recipes));
            }
            match Self::resolve_alias(&resolved, alias) {
                Err(error) => {
                    proof {
                        lemma_first_fault_at(late, count + a);
                    }
                    return Err(error);
                },
                Ok(found) => {
                    proof {
                        if has_key(resolved_aliases@, found.key_spec()) {
                            let s = position(resolved_aliases@, found.key_spec());
                            assert(resolved_aliases@[s].name == parts.aliases[s].name);
                            assert(parts.aliases[s].key_spec() != parts.aliases[a as int].key_spec());
                        }
                    }
                    resolved_aliases.insert(found);
                },
            }
            a += 1;
        }
        let mut settings = Settings::new();
        for set in it: sets.entries
            invariant
                it.seq() == parts.sets,
                settings == settings_of(parts.sets, it.index() as nat),
        {
            let SetItem { name: _, value } = set;
            match value {
                Setting::Shell(shell) => {
                    settings.shell = Some(shell);
                },
                Setting::ModuleExperiment => {
                    settings.module_experiment = true;
                },
            }
        }
        let total = submodules.len();
        proof {
            assert(late[count + a] == module_fault(parts));
            assert(late.len() == count + a + 1);
        }
        if total > 0 && !settings.module_experiment {
            let first = &submodules.values()[0];
            let error = first.name.error(
                CompilationErrorKind::ForbiddenModule { module: first.name.lexeme.clone() },
            );
            proof {
                lemma_first_fault_at(late, count + a);
            }
            return Err(error);
        }
        proof {
            lemma_no_fault(late);
        }
        let mut modules: Vec<Submodule> = Vec::new();
        let mut k: usize = 0;
        for submodule in it: submodules.entries
            invariant
                it.seq() == parts.submodules,
                k == it.index(),
                total == parts.submodules.len(),
                flat_valid(parts),
                modules@.len() == k,
                forall|s: int|
                    0 <= s < k ==> is_valid((#[trigger] parts.submodules[s]).items.items@),
                forall|s: int|
                    0 <= s < k ==> (#[trigger] modules@[s]).name == parts.submodules[s].name,
                forall|s: int|
                    0 <= s < k ==> is_module_of(
                        parts_of(parts.submodules[s].items.items@),
                        (#[trigger] modules@[s]).items,
                    ),
                forall|s: int| 0 <= s < k ==> (#[trigger] modules@[s]).items.wf(),
        {
            proof {
                lemma_nesting_of(parts.submodules, parts.submodules.len(), k as int);
            }
            match self.resolve_submodule(submodule) {
                Err(error) => {
                    return Err(error);
                },
                Ok(module) => {
                    modules.push(module);
                },
            }
            k += 1;
        }
        let module = Module {
            aliases: resolved_aliases,
            assignments,
            recipes: resolved,
            settings,
            submodules: modules,
        };
        proof {
            assert forall|s: int| 0 <= s < module.submodules@.len() implies (
            #[trigger] module.submodules@[s]).key_spec() == parts.submodules[s].key_spec() by {
                assert(module.submodules@[s].name == parts.submodules[s].name);
            }
            assert forall|s: int| 0 <= s < module.aliases@.len() implies (
            #[trigger] module.aliases@[s]).key_spec() == parts.aliases[s].key_spec() by {
                assert(module.aliases@[s].name == parts.aliases[s].name);
            }
            assert forall|s: int| 0 <= s < parts.submodules.len() implies (
            #[trigger] parts.submodules[s]).key_spec() == module.submodules@[s].key_spec() by {
                assert(module.submodules@[s].name == parts.submodules[s].name);
            }
            assert forall|s: int, t: int| 0 <= s < t < module.submodules@.len() implies (
            #[trigger] module.submodules@[s]).key_spec() != (
            #[trigger] module.submodules@[t]).key_spec() by {
                assert(parts.submodules[s].key_spec() != parts.submodules[t].key_spec());
            }
            assert forall|s: int| 0 <= s < module.aliases@.len() implies !has_key(
                module.recipes@,
                (#[trigger] module.aliases@[s]).key_spec(),
            ) && !has_key(module.submodules@, module.aliases@[s].key_spec()) by {
                let key = parts.aliases[s].key_spec();
                lemma_same_keys(parts.recipes, module.recipes@, key);
                lemma_same_keys(parts.submodules, module.submodules@, key);
            }
            assert forall|s: int| 0 <= s < module.recipes@.len() implies !has_key(
                module.submodules@,
                (#[trigger] module.recipes@[s]).key_spec(),
            ) by {
                let key = parts.recipes[s].key_spec();
                lemma_same_keys(parts.submodules, module.submodules@, key);
            }
            assert forall|s: int| 0 <= s < module.recipes@.len() implies recipe_wf(
                *#[trigger] module.recipes@[s],
                module.assignments@,
                module.recipes@,
            ) by {
                lemma_no_fault_each(late, s);
                lemma_recipes_wf(parts.recipes, parts.assignments, module.recipes@, s);
            }
            assert forall|s: int| 0 <= s < module.aliases@.len() implies has_key(
                module.recipes@,
                (#[trigger] module.aliases@[s]).target.key_spec(),
            ) && module.recipes@[position(module.recipes@, module.aliases@[s].target.key_spec())]
                == module.aliases@[s].target by {
                let name = parts.aliases[s].target.lexeme@;
                lemma_no_fault_each(late, count + s);
                assert(late[count + s] == alias_fault(parts.aliases[s], parts.recipes));
                let j = position(parts.recipes, name);
                assert(parts.recipes[j].key_spec() == module.recipes@[j].key_spec());
                lemma_position(module.recipes@, module.aliases@[s].target.key_spec(), j);
            }
        }
        Ok(module)
    }

    /// Analyzes the items of a module. The names are checked first: no item
    /// may have the name of an earlier item of its namespace. Then the shape
    /// of each recipe is checked, and the items are resolved.
    #[verifier::loop_isolation(false)]
    pub fn analyze_suite(&mut self, suite: Suite) -> (result: Result<Module, CompilationError>)
        ensures
            match result {
                Ok(module) => is_valid(suite.items@) && is_module_of(parts_of(suite.items@), module)
                    && module.wf(),
                Err(e) => !is_valid(suite.items@) && is_error_of(suite.items@, e),
            },
        decreases nesting(suite.items@), 1nat,
    {
        let ghost all = suite.items@;
        let ghost faults = suite_faults(all);
        let n = suite.items.len();
        let mut j: usize = 0;
        while j < n
            invariant
                all == suite.items@,
                n == all.len(),
                faults == suite_faults(all),
                j <= n,
                forall|s: int| 0 <= s < j ==> (#[trigger] faults[s]) is None,
            decreases n - j,
        {
            assert(faults[j as int] == collision_fault(all, j as int));
            match find_match(&suite.items, j) {
                Some(i) => {
                    let item = &suite.items[j];
                    let first = &suite.items[i];
                    let error = item.name().error(
                        CompilationErrorKind::Collision {
                            name: item.name().lexeme.clone(),
                            kind: item.kind(),
                            first: first.name().line,
                            first_kind: first.kind(),
                            namespace: item.namespace(),
                        },
                    );
                    proof {
                        assert(error == collision(all, i as int, j as int));
                        lemma_first_fault_at(faults, j as int);
                    }
                    return Err(error);
                },
                None => {},
            }
            j += 1;
        }
        let mut items = Items::new();
        let mut j: usize = 0;
        for item in it: suite.items
            invariant
                it.seq() == all,
                j == it.index(),
                n == all.len(),
                faults == suite_faults(all),
                forall|s: int| 0 <= s < n + j ==> (#[trigger] faults[s]) is None,
                items.wf(),
                items.aliases@ == aliases_in(all, j as nat),
                items.assignments@ == assignments_in(all, j as nat),
                items.recipes@ == recipes_in(all, j as nat),
                items.sets@ == sets_in(all, j as nat),
                items.submodules@ == submodules_in(all, j as nat),
        {
            proof {
                assert(faults[j as int] is None);
                assert(faults[j as int] == collision_fault(all, j as int));
                lemma_part_keys(all, j as int);
                assert(faults[n + j] == crate::analysis::item_fault(all[j as int]));
            }
            match item {
                Item::Alias(alias) => {
                    items.aliases.insert(alias);
                },
                Item::Assignment(assignment) => {
                    items.assignments.insert(assignment);
                },
                Item::Submodule(submodule) => {
                    items.submodules.insert(submodule);
                },
                Item::Recipe(recipe) => {
                    match self.analyze_recipe(&recipe) {
                        Err(error) => {
                            proof {
                                lemma_first_fault_at(faults, n + j);
                            }
                            return Err(error);
                        },
                        Ok(()) => {},
                    }
                    items.recipes.insert(recipe);
                },
                Item::SetItem(set) => {
                    items.sets.insert(set);
                },
            }
            j += 1;
        }
        proof {
            lemma_no_fault(faults);
            assert(items@ == parts_of(all));
            lemma_nesting_within(all, submodules_in(all, all.len()).len());
        }
        let result = self.resolve_items(items);
        proof {
            let parts = parts_of(all);
            if result is Ok {
                assert forall|k: int|
                    #![trigger parts.submodules[k]]
                    0 <= k < parts.submodules.len() implies submodule_valid(all, k) by {
                    assert(is_valid(parts.submodules[k].items.items@));
                }
            } else if flat_valid(parts) {
                let e = result->Err_0;
                let k = choose|k: int|
                    0 <= k < parts.submodules.len() && !is_valid(
                        (#[trigger] parts.submodules[k]).items.items@,
                    ) && is_error_of(parts.submodules[k].items.items@, e) && forall|j: int|
                        0 <= j < k ==> is_valid((#[trigger] parts.submodules[j]).items.items@);
                assert(submodule_error(all, k, e));
                assert(!submodule_valid(all, k));
                assert forall|j: int|
                    #![trigger parts.submodules[j]]
                    0 <= j < k implies submodule_valid(all, j) by {
                    assert(is_valid(parts.submodules[j].items.items@));
                }
            }
        }
        result
    }
}

/// Where item `j` conflicts with no item before it, the items before it
/// hold, among those of its namespace, none under its name.
pub proof fn lemma_part_keys(items: Seq<Item>, j: int)
    requires
        0 <= j < items.len(),
        collision_fault(items, j) is None,
    ensures
        items[j] is Alias || items[j] is Recipe || items[j] is Submodule ==> !has_key(
            aliases_in(items, j as nat),
            items[j].key_spec(),
        ) && !has_key(recipes_in(items, j as nat), items[j].key_spec()) && !has_key(
            submodules_in(items, j as nat),
            items[j].key_spec(),
        ),
        items[j] is Assignment ==> !has_key(assignments_in(items, j as nat), items[j].key_spec()),
        items[j] is SetItem ==> !has_key(sets_in(items, j as nat), items[j].key_spec()),
{
    let key = items[j].key_spec();
    if has_key(aliases_in(items, j as nat), key) {
        let k = position(aliases_in(items, j as nat), key);
        lemma_aliases_in(items, j as nat, k);
        let i = choose|i: int|
            0 <= i < j && i < items.len() && #[trigger] items[i] == Item::Alias(
                aliases_in(items, j as nat)[k],
            );
        assert(items[i].key_spec() == key);
        assert(!crate::collision::collides(items[i], items[j]));
    }
    if has_key(recipes_in(items, j as nat), key) {
        let k = position(recipes_in(items, j as nat), key);
        lemma_recipes_in(items, j as nat, k);
        let i = choose|i: int|
            0 <= i < j && i < items.len() && #[trigger] items[i] == Item::Recipe(
                recipes_in(items, j as nat)[k],
            );
        assert(items[i].key_spec() == key);
        assert(!crate::collision::collides(items[i], items[j]));
    }
    if has_key(submodules_in(items, j as nat), key) {
        let k = position(submodules_in(items, j as nat), key);
        lemma_submodules_in(items, j as nat, k);
        let i = choose|i: int|
            0 <= i < j && i < items.len() && #[trigger] items[i] == Item::Submodule(
                submodules_in(items, j as nat)[k],
            );
        assert(items[i].key_spec() == key);
        assert(!crate::collision::collides(items[i], items[j]));
    }
    if has_key(assignments_in(items, j as nat), key) {
        let k = position(assignments_in(items, j as nat), key);
        lemma_assignments_in(items, j as nat, k);
        let i = choose|i: int|
            0 <= i < j && i < items.len() && #[trigger] items[i] == Item::Assignment(
                assignments_in(items, j as nat)[k],
            );
        assert(items[i].key_spec() == key);
        assert(!crate::collision::collides(items[i], items[j]));
    }
    if has_key(sets_in(items, j as nat), key) {
        let k = position(sets_in(items, j as nat), key);
        lemma_sets_in(items, j as nat, k);
        let i = choose|i: int|
            0 <= i < j && i < items.len() && #[trigger] items[i] == Item::SetItem(
                sets_in(items, j as nat)[k],
            );
        assert(items[i].key_spec() == key);
        assert(!crate::collision::collides(items[i], items[j]));
    }
}

} // verus!
