//! The resolution of the dependencies of recipes.

use crate::assignment::Assignment;
use crate::assignment_resolver::{
    is_named_cycle,
    lemma_names_are_nodes,
    names_of,
    undefined_variable,
};
use crate::compilation_error::CompilationError;
use crate::compilation_error_kind::CompilationErrorKind;
use crate::expression::{collect_all_references, references_of, Reference};
use crate::fault::{first_fault, lemma_first_fault_at, lemma_no_fault};
use crate::function::{arity, arity_of};
use crate::graph::{
    graph_of,
    has_cycle,
    is_topological,
    lemma_cycle_nodes,
    placed_before,
    walk,
    Walk,
};
use crate::keyed::Keyed;
use crate::line::{Fragment, Line};
use crate::parameter::Parameter;
use crate::recipe::{Dependency, Recipe, UnresolvedDependency, UnresolvedRecipe};
use crate::strings::same;
use crate::table::{distinct_keys, has_key, lemma_position, position, Table};
use std::rc::Rc;
use vstd::prelude::*;

verus! {

/// Whether one of the parameters has the given name.
pub open spec fn is_parameter(parameters: Seq<Parameter>, name: Seq<char>) -> bool {
    exists|p: int| 0 <= p < parameters.len() && (#[trigger] parameters[p]).name.lexeme@ == name
}

/// What is wrong with a name that a recipe uses: a variable must be
/// assigned or be a parameter of the recipe, a function must exist and be
/// called with as many arguments as it takes.
pub open spec fn reference_fault(
    reference: Reference,
    assignments: Seq<Assignment>,
    parameters: Seq<Parameter>,
) -> Option<CompilationError> {
    match reference {
        Reference::Variable { name } => if has_key(assignments, name.lexeme@) || is_parameter(
            parameters,
            name.lexeme@,
        ) {
            None
        } else {
            Some(undefined_variable(name))
        },
        Reference::Call { function, arguments } => match arity_of(function.lexeme@) {
            None => Some(
                CompilationError {
                    token: function.token_spec(),
                    kind: CompilationErrorKind::UnknownFunction { function: function.lexeme },
                },
            ),
            Some(expected) => if expected == arguments {
                None
            } else {
                Some(
                    CompilationError {
                        token: function.token_spec(),
                        kind: CompilationErrorKind::FunctionArgumentCountMismatch {
                            function: function.lexeme,
                            found: arguments,
                            expected,
                        },
                    },
                )
            },
        },
    }
}

/// What is wrong with dependency `d` of recipe `i`: the recipe that it
/// names must exist and accept the number of arguments given.
pub open spec fn dependency_fault(recipes: Seq<UnresolvedRecipe>, i: int, d: int) -> Option<
    CompilationError,
> {
    let recipe = recipes[i];
    let dependency = recipe.dependencies@[d];
    if !has_key(recipes, dependency.recipe.lexeme@) {
        Some(
            CompilationError {
                token: dependency.recipe.token_spec(),
                kind: CompilationErrorKind::UnknownDependency {
                    recipe: recipe.name.lexeme,
                    unknown: dependency.recipe.lexeme,
                },
            },
        )
    } else {
        let range = recipes[position(recipes, dependency.recipe.lexeme@)].argument_range_spec();
        if range.holds(dependency.arguments@.len() as usize) {
            None
        } else {
            Some(
                CompilationError {
                    token: dependency.recipe.token_spec(),
                    kind: CompilationErrorKind::DependencyArgumentCountMismatch {
                        dependency: dependency.recipe.lexeme,
                        found: dependency.arguments@.len() as usize,
                        min: range.min,
                        max: range.max,
                    },
                },
            )
        }
    }
}

/// The names that the first `n` fragments of a line use.
pub open spec fn line_references(fragments: Seq<Fragment>, n: nat) -> Seq<Reference>
    decreases n,
{
    if n == 0 || n > fragments.len() {
        Seq::empty()
    } else {
        line_references(fragments, (n - 1) as nat) + match fragments[n - 1] {
            Fragment::Interpolation { expression } => expression.references_spec(),
            Fragment::Text { .. } => Seq::empty(),
        }
    }
}

/// The names that the first `n` lines use.
pub open spec fn body_references(body: Seq<Line>, n: nat) -> Seq<Reference>
    decreases n,
{
    if n == 0 || n > body.len() {
        Seq::empty()
    } else {
        body_references(body, (n - 1) as nat) + line_references(
            body[n - 1].fragments@,
            body[n - 1].fragments@.len(),
        )
    }
}

/// The names that the arguments of the first `n` dependencies use.
pub open spec fn dependency_references(dependencies: Seq<UnresolvedDependency>, n: nat) -> Seq<
    Reference,
>
    decreases n,
{
    if n == 0 || n > dependencies.len() {
        Seq::empty()
    } else {
        dependency_references(dependencies, (n - 1) as nat) + references_of(
            dependencies[n - 1].arguments@,
            dependencies[n - 1].arguments@.len(),
        )
    }
}

/// The names that a recipe uses: those in the arguments of its
/// dependencies, then those in its body.
pub open spec fn recipe_references(recipe: UnresolvedRecipe) -> Seq<Reference> {
    dependency_references(recipe.dependencies@, recipe.dependencies@.len()) + body_references(
        recipe.body@,
        recipe.body@.len(),
    )
}

/// What the checks of recipe `i` find, in the order in which they are
/// made: one for each dependency, then one for each name that is used.
pub open spec fn recipe_faults(
    recipes: Seq<UnresolvedRecipe>,
    assignments: Seq<Assignment>,
    i: int,
) -> Seq<Option<CompilationError>> {
    Seq::new(recipes[i].dependencies@.len(), |d: int| dependency_fault(recipes, i, d)) + Seq::new(
        recipe_references(recipes[i]).len(),
        |r: int|
            reference_fault(recipe_references(recipes[i])[r], assignments, recipes[i].parameters@),
    )
}

/// What the checks of the recipes find, recipe by recipe: for each its
/// first error.
pub open spec fn resolution_faults(
    recipes: Seq<UnresolvedRecipe>,
    assignments: Seq<Assignment>,
) -> Seq<Option<CompilationError>> {
    Seq::new(recipes.len(), |i: int| first_fault(recipe_faults(recipes, assignments, i)))
}

/// The graph of the recipes: each points to its dependencies.
pub open spec fn recipe_graph(recipes: Seq<UnresolvedRecipe>) -> Seq<Seq<usize>> {
    Seq::new(
        recipes.len(),
        |i: int|
            Seq::new(
                recipes[i].dependencies@.len(),
                |d: int| position(recipes, recipes[i].dependencies@[d].recipe.lexeme@) as usize,
            ),
    )
}

/// Whether `resolved` is what `recipe` becomes when each of its
/// dependencies is the recipe found at the position that `targets` gives
/// for it in `slots`.
pub open spec fn is_built(
    recipe: UnresolvedRecipe,
    targets: Seq<usize>,
    resolved: Recipe,
    slots: Seq<Option<Rc<Recipe>>>,
) -> bool {
    &&& resolved.name == recipe.name
    &&& resolved.parameters == recipe.parameters
    &&& resolved.body == recipe.body
    &&& resolved.shebang == recipe.shebang
    &&& resolved.quiet == recipe.quiet
    &&& resolved.private == recipe.private
    &&& resolved.doc == recipe.doc
    &&& resolved.dependencies@.len() == recipe.dependencies@.len()
    &&& forall|d: int|
        0 <= d < recipe.dependencies@.len() ==> (#[trigger] resolved.dependencies@[d]).arguments
            == recipe.dependencies@[d].arguments
    &&& forall|d: int|
        0 <= d < recipe.dependencies@.len() ==> slots[targets[d] as int] == Some(
            (#[trigger] resolved.dependencies@[d]).recipe,
        )
}

/// Whether `resolved` holds, at the position of each recipe, that recipe
/// with each dependency replaced by the resolved recipe that it names.
pub open spec fn is_resolution(recipes: Seq<UnresolvedRecipe>, resolved: Seq<Rc<Recipe>>) -> bool {
    &&& resolved.len() == recipes.len()
    &&& forall|i: int|
        0 <= i < recipes.len() ==> is_built(
            recipes[i],
            recipe_graph(recipes)[i],
            *#[trigger] resolved[i],
            resolved.map_values(|r: Rc<Recipe>| Some(r)),
        )
}

/// Whether one of the parameters has the given name.
pub fn has_parameter(parameters: &Vec<Parameter>, name: &str) -> (b: bool)
    ensures
        b == is_parameter(parameters@, name@),
{
    let mut p: usize = 0;
    while p < parameters.len()
        invariant
            p <= parameters.len(),
            forall|q: int| 0 <= q < p ==> (#[trigger] parameters@[q]).name.lexeme@ != name@,
        decreases parameters.len() - p,
    {
        if same(parameters[p].name.lexeme(), name) {
            return true;
        }
        p += 1;
    }
    false
}

/// Checks a name that a recipe with the given parameters uses.
pub fn check_reference(
    reference: &Reference,
    assignments: &Table<Assignment>,
    parameters: &Vec<Parameter>,
) -> (fault: Option<CompilationError>)
    ensures
        fault == reference_fault(*reference, assignments@, parameters@),
{
    match reference {
        Reference::Variable { name } => {
            if assignments.contains_key(name.lexeme()) || has_parameter(parameters, name.lexeme()) {
                None
            } else {
                Some(
                    name.error(
                        CompilationErrorKind::UndefinedVariable { variable: name.lexeme.clone() },
                    ),
                )
            }
        },
        Reference::Call { function, arguments } => match arity(function.lexeme()) {
            None => Some(
                function.error(
                    CompilationErrorKind::UnknownFunction { function: function.lexeme.clone() },
                ),
            ),
            Some(expected) => if expected == *arguments {
                None
            } else {
                Some(
                    function.error(
                        CompilationErrorKind::FunctionArgumentCountMismatch {
                            function: function.lexeme.clone(),
                            found: *arguments,
                            expected,
                        },
                    ),
                )
            },
        },
    }
}

/// The names that a recipe uses.
pub fn collect_recipe_references(recipe: &UnresolvedRecipe) -> (references: Vec<Reference>)
    ensures
        references@ == recipe_references(*recipe),
{
    let mut references: Vec<Reference> = Vec::new();
    let mut d: usize = 0;
    while d < recipe.dependencies.len()
        invariant
            d <= recipe.dependencies.len(),
            references@ == dependency_references(recipe.dependencies@, d as nat),
        decreases recipe.dependencies.len() - d,
    {
        collect_all_references(&recipe.dependencies[d].arguments, &mut references);
        d += 1;
    }
    let ghost first = references@;
    let mut l: usize = 0;
    assert(first + body_references(recipe.body@, 0) =~= first);
    while l < recipe.body.len()
        invariant
            l <= recipe.body.len(),
            references@ == first + body_references(recipe.body@, l as nat),
        decreases recipe.body.len() - l,
    {
        let line = &recipe.body[l];
        let ghost before = references@;
        let mut f: usize = 0;
        assert(before + line_references(line.fragments@, 0) =~= before);
        while f < line.fragments.len()
            invariant
                f <= line.fragments.len(),
                references@ == before + line_references(line.fragments@, f as nat),
            decreases line.fragments.len() - f,
        {
            let ghost inner = references@;
            match &line.fragments[f] {
                Fragment::Interpolation { expression } => {
                    expression.collect_references(&mut references);
                    assert(inner + expression.references_spec() =~= before + line_references(
                        line.fragments@,
                        (f + 1) as nat,
                    ));
                },
                Fragment::Text { .. } => {
                    assert(inner =~= before + line_references(line.fragments@, (f + 1) as nat));
                },
            }
            f += 1;
        }
        assert(references@ =~= first + body_references(recipe.body@, (l + 1) as nat));
        l += 1;
    }
    references
}

/// Checks recipe `i`. Returns its first error, or the positions of its
/// dependencies where it has none.
pub fn check_recipe(
    recipes: &Table<UnresolvedRecipe>,
    assignments: &Table<Assignment>,
    i: usize,
) -> (result: Result<Vec<usize>, CompilationError>)
    requires
        recipes.wf(),
        i < recipes@.len(),
    ensures
        match result {
            Ok(targets) => first_fault(recipe_faults(recipes@, assignments@, i as int)) is None
                && targets@ == recipe_graph(recipes@)[i as int] && forall|d: int|
                0 <= d < targets@.len() ==> (#[trigger] targets@[d]) < recipes@.len(),
            Err(e) => first_fault(recipe_faults(recipes@, assignments@, i as int)) == Some(e),
        },
{
    let entries = recipes.values();
    let recipe = &entries[i];
    let ghost faults = recipe_faults(recipes@, assignments@, i as int);
    let count = recipe.dependencies.len();
    let mut targets: Vec<usize> = Vec::new();
    let mut d: usize = 0;
    while d < count
        invariant
            recipes.wf(),
            entries@ == recipes@,
            i < entries@.len(),
            *recipe == entries@[i as int],
            count == recipe.dependencies@.len(),
            faults == recipe_faults(recipes@, assignments@, i as int),
            d <= count,
            targets@.len() == d,
            forall|s: int| 0 <= s < d ==> (#[trigger] faults[s]) is None,
            forall|s: int| 0 <= s < d ==> (#[trigger] targets@[s]) < entries@.len(),
            forall|s: int|
                0 <= s < d ==> #[trigger] targets@[s] == position(
                    entries@,
                    recipe.dependencies@[s].recipe.lexeme@,
                ),
        decreases count - d,
    {
        let dependency = &recipe.dependencies[d];
        assert(faults[d as int] == dependency_fault(recipes@, i as int, d as int));
        match recipes.index_of(dependency.recipe.lexeme()) {
            None => {
                let error = dependency.recipe.error(
                    CompilationErrorKind::UnknownDependency {
                        recipe: recipe.name.lexeme.clone(),
                        unknown: dependency.recipe.lexeme.clone(),
                    },
                );
                proof {
                    lemma_first_fault_at(faults, d as int);
                }
                return Err(error);
            },
            Some(j) => {
                let range = entries[j].argument_range();
                let found = dependency.arguments.len();
                if !range.range_contains(found) {
                    let error = dependency.recipe.error(
                        CompilationErrorKind::DependencyArgumentCountMismatch {
                            dependency: dependency.recipe.lexeme.clone(),
                            found,
                            min: range.min,
                            max: range.max,
                        },
                    );
                    proof {
                        lemma_first_fault_at(faults, d as int);
                    }
                    return Err(error);
                }
                targets.push(j);
            },
        }
        d += 1;
    }
    let references = collect_recipe_references(recipe);
    let mut k: usize = 0;
    while k < references.len()
        invariant
            entries@ == recipes@,
            i < entries@.len(),
            *recipe == entries@[i as int],
            count == recipe.dependencies@.len(),
            faults == recipe_faults(recipes@, assignments@, i as int),
            references@ == recipe_references(*recipe),
            k <= references.len(),
            forall|s: int| 0 <= s < count + k ==> (#[trigger] faults[s]) is None,
        decreases references.len() - k,
    {
        assert(faults[count + k] == reference_fault(
            references@[k as int],
            assignments@,
            recipe.parameters@,
        ));
        match check_reference(&references[k], assignments, &recipe.parameters) {
            Some(error) => {
                proof {
                    lemma_first_fault_at(faults, count + k);
                }
                return Err(error);
            },
            None => {},
        }
        k += 1;
    }
    proof {
        lemma_no_fault(faults);
        assert(targets@ =~= recipe_graph(recipes@)[i as int]);
    }
    Ok(targets)
}

/// Whether the recipes can be resolved: none of their checks finds an
/// error, and no recipe depends on itself.
pub open spec fn recipes_valid(recipes: Seq<UnresolvedRecipe>, assignments: Seq<Assignment>) -> bool {
    first_fault(resolution_faults(recipes, assignments)) is None && !has_cycle(
        recipe_graph(recipes),
    )
}

/// Whether `e` is the error of recipes that cannot be resolved: the first
/// that a check finds, or, where none finds one, a cycle of recipes of
/// which each depends on the next, at the recipe that the cycle begins and
/// ends with.
pub open spec fn is_recipe_error(
    recipes: Seq<UnresolvedRecipe>,
    assignments: Seq<Assignment>,
    e: CompilationError,
) -> bool {
    match first_fault(resolution_faults(recipes, assignments)) {
        Some(fault) => e == fault,
        None => {
            &&& e.kind matches CompilationErrorKind::CircularRecipeDependency { recipe, circle }
            &&& is_named_cycle(recipes, recipe_graph(recipes), circle@)
            &&& recipe@ == circle@[0]@
            &&& e.token == recipes[position(recipes, recipe@)].name.token_spec()
        },
    }
}

pub struct RecipeResolver;

impl RecipeResolver {
    /// Resolves the dependencies of the recipes. Each recipe is checked in
    /// the order of the source: that its dependencies exist and get a number
    /// of arguments that they accept, and that the variables and functions
    /// which it uses exist. Then the recipes must not depend on themselves.
    /// The result holds the recipes in their order, each with its
    /// dependencies replaced by the recipes that they name.
    pub fn resolve_recipes(
        unresolved: Table<UnresolvedRecipe>,
        assignments: &Table<Assignment>,
    ) -> (result: Result<Table<Rc<Recipe>>, CompilationError>)
        requires
            unresolved.wf(),
        ensures
            result is Ok <==> recipes_valid(unresolved@, assignments@),
            result matches Ok(resolved) ==> resolved.wf() && is_resolution(unresolved@, resolved@),
            result matches Err(e) ==> is_recipe_error(unresolved@, assignments@, e),
    {
        let n = unresolved.len();
        let ghost given = unresolved@;
        let ghost faults = resolution_faults(given, assignments@);
        let mut edges: Vec<Vec<usize>> = Vec::new();
        let mut i: usize = 0;
        while i < n
            invariant
                unresolved.wf(),
                unresolved@ == given,
                n == given.len(),
                faults == resolution_faults(given, assignments@),
                i <= n,
                edges@.len() == i,
                forall|j: int| 0 <= j < i ==> (#[trigger] faults[j]) is None,
                forall|j: int| 0 <= j < i ==> (#[trigger] edges@[j])@ == recipe_graph(given)[j],
                forall|j: int, d: int|
                    0 <= j < i && 0 <= d < edges@[j]@.len() ==> (#[trigger] edges@[j]@[d]) < n,
            decreases n - i,
        {
            match check_recipe(&unresolved, assignments, i) {
                Err(error) => {
                    proof {
                        lemma_first_fault_at(faults, i as int);
                    }
                    return Err(error);
                },
                Ok(targets) => {
                    edges.push(targets);
                },
            }
            i += 1;
        }
        proof {
            lemma_no_fault(faults);
            assert(graph_of(edges@) =~= recipe_graph(given));
        }
        let order = match walk(&edges) {
            Walk::Circular(nodes) => {
                proof {
                    lemma_cycle_nodes(graph_of(edges@), nodes@);
                }
                let entries = unresolved.values();
                let circle = names_of(entries, &nodes);
                let first = &entries[nodes[0]];
                let error = first.name.error(
                    CompilationErrorKind::CircularRecipeDependency {
                        recipe: first.name.lexeme.clone(),
                        circle,
                    },
                );
                proof {
                    lemma_names_are_nodes(entries@, nodes@, circle@);
                    lemma_position(entries@, first.name.lexeme@, nodes@[0] as int);
                }
                return Err(error);
            },
            Walk::Dangling { .. } => {
                proof {
                    assert(false);
                }
                vstd::pervasive::unreached()
            },
            Walk::Ordered(order) => order,
        };
        let resolved = build(unresolved, &edges, &order);
        Ok(resolved)
    }
}

/// Whether the first `t` nodes of `order` are resolved in `slots` and the
/// others wait in `pending`.
pub open spec fn is_partly_built(
    recipes: Seq<UnresolvedRecipe>,
    order: Seq<usize>,
    t: int,
    pending: Seq<Option<UnresolvedRecipe>>,
    slots: Seq<Option<Rc<Recipe>>>,
) -> bool {
    &&& pending.len() == recipes.len()
    &&& slots.len() == recipes.len()
    &&& forall|u: int|
        0 <= u < recipes.len() && !placed_before(order, t, u as usize) ==> #[trigger] pending[u]
            == Some(recipes[u]) && slots[u] is None
    &&& forall|u: int|
        0 <= u < recipes.len() && placed_before(order, t, u as usize) ==> (#[trigger] slots[u]) is Some
            && is_built(recipes[u], recipe_graph(recipes)[u], *slots[u]->0, slots)
}

/// Builds the resolved recipes in an order in which each comes after its
/// dependencies.
fn build(unresolved: Table<UnresolvedRecipe>, edges: &Vec<Vec<usize>>, order: &Vec<usize>) -> (resolved:
    Table<Rc<Recipe>>)
    requires
        unresolved.wf(),
        graph_of(edges@) == recipe_graph(unresolved@),
        is_topological(recipe_graph(unresolved@), order@),
    ensures
        resolved.wf(),
        is_resolution(unresolved@, resolved@),
{
    let ghost given = unresolved@;
    let ghost graph = recipe_graph(given);
    let n = unresolved.len();
    let mut pending: Vec<Option<UnresolvedRecipe>> = Vec::new();
    let mut slots: Vec<Option<Rc<Recipe>>> = Vec::new();
    for recipe in it: unresolved.entries
        invariant
            it.seq() == given,
            pending@.len() == it.index(),
            slots@.len() == it.index(),
            forall|u: int| 0 <= u < pending@.len() ==> #[trigger] pending@[u] == Some(given[u]),
            forall|u: int| 0 <= u < slots@.len() ==> (#[trigger] slots@[u]) is None,
    {
        pending.push(Some(recipe));
        slots.push(None);
    }
    let mut t: usize = 0;
    while t < order.len()
        invariant
            distinct_keys(given),
            n == given.len(),
            graph == recipe_graph(given),
            graph_of(edges@) == graph,
            is_topological(graph, order@),
            t <= order.len(),
            is_partly_built(given, order@, t as int, pending@, slots@),
        decreases order.len() - t,
    {
        let u = order[t];
        let targets = &edges[u];
        assert(targets@ == graph[u as int]);
        proof {
            if placed_before(order@, t as int, u) {
                let j = choose|j: int| 0 <= j < t && order@[j] == u;
                assert(order@[j] != order@[t as int]);
            }
        }
        let ghost slots_before = slots@;
        let ghost pending_before = pending@;
        let recipe = pending[u].take().unwrap();
        let UnresolvedRecipe {
            name,
            parameters,
            dependencies: unresolved_dependencies,
            body,
            shebang,
            quiet,
            private,
            doc,
        } = recipe;
        let mut dependencies: Vec<Dependency> = Vec::new();
        let mut d: usize = 0;
        let count = targets.len();
        for dependency in it: unresolved_dependencies
            invariant
                it.seq() == given[u as int].dependencies@,
                d == it.index(),
                count == targets@.len(),
                graph.len() == n,
                dependencies@.len() == d,
                targets@ == graph[u as int],
                targets@.len() == given[u as int].dependencies@.len(),
                u < n,
                n == given.len(),
                slots@ == slots_before,
                slots@.len() == n,
                t < order@.len(),
                u == order@[t as int],
                is_topological(graph, order@),
                forall|v: int|
                    0 <= v < n && placed_before(order@, t as int, v as usize) ==> (
                    #[trigger] slots@[v]) is Some,
                forall|s: int|
                    0 <= s < d ==> (#[trigger] dependencies@[s]).arguments
                        == given[u as int].dependencies@[s].arguments,
                forall|s: int|
                    0 <= s < d ==> slots@[targets@[s] as int] == Some(
                        (#[trigger] dependencies@[s]).recipe,
                    ),
        {
            let j = targets[d];
            proof {
                assert(placed_before(order@, t as int, graph[order@[t as int] as int][d as int]));
                let at = choose|at: int| 0 <= at < t && order@[at] == j;
                assert(order@[at] < graph.len());
            }
            let target = match &slots[j] {
                Some(found) => found.clone(),
                None => {
                    proof {
                        assert(false);
                    }
                    vstd::pervasive::unreached()
                },
            };
            let UnresolvedDependency { recipe: _, arguments } = dependency;
            dependencies.push(Dependency { recipe: target, arguments });
            d += 1;
        }
        let resolved = Rc::new(
            Recipe { name, parameters, dependencies, body, shebang, quiet, private, doc },
        );
        slots[u] = Some(resolved);
        proof {
            let next = t + 1;
            assert forall|v: int|
                0 <= v < n && !placed_before(order@, next, v as usize) implies #[trigger] pending@[v]
                == Some(given[v]) && slots@[v] is None by {
                if placed_before(order@, t as int, v as usize) {
                    let j = choose|j: int| 0 <= j < t && order@[j] == v as usize;
                    assert(0 <= j < next && order@[j] == v as usize);
                }
                if v == u {
                    assert(order@[t as int] == v as usize);
                }
                assert(pending_before[v] == Some(given[v]));
            }
            assert forall|v: int|
                0 <= v < n && placed_before(order@, next, v as usize) implies (
                #[trigger] slots@[v]) is Some
                && is_built(given[v], graph[v], *slots@[v]->0, slots@) by {
                let j = choose|j: int| 0 <= j < next && order@[j] == v as usize;
                if v != u {
                    assert(j < t);
                    assert(placed_before(order@, t as int, v as usize));
                    assert(slots_before[v] is Some);
                    let built = *slots_before[v]->0;
                    assert(is_built(given[v], graph[v], built, slots_before));
                    assert forall|s: int|
                        0 <= s < given[v].dependencies@.len() implies slots@[graph[v][s] as int]
                        == Some((#[trigger] built.dependencies@[s]).recipe) by {
                        assert(slots_before[graph[v][s] as int] == Some(
                            built.dependencies@[s].recipe,
                        ));
                    }
                } else {
                    assert forall|s: int|
                        0 <= s < given[u as int].dependencies@.len() implies slots@[graph[v][
                        s
                    ] as int]
                        == Some((#[trigger] dependencies@[s]).recipe) by {
                        assert(slots_before[targets@[s] as int] == Some(dependencies@[s].recipe));
                    }
                }
            }
        }
        t += 1;
    }
    let mut resolved: Table<Rc<Recipe>> = Table::new();
    let mut i: usize = 0;
    let ghost built = slots@;
    while i < n
        invariant
            distinct_keys(given),
            n == given.len(),
            graph == recipe_graph(given),
            is_topological(graph, order@),
            is_partly_built(given, order@, order@.len() as int, pending@, built),
            built.len() == n,
            slots@.len() == n,
            i <= n,
            forall|v: int| i <= v < n ==> #[trigger] slots@[v] == built[v],
            resolved@.len() == i,
            forall|v: int| 0 <= v < i ==> Some(#[trigger] resolved@[v]) == built[v],
        decreases n - i,
    {
        proof {
            assert(order@.contains(i));
            let j = choose|j: int| 0 <= j < order@.len() && order@[j] == i;
            assert(placed_before(order@, order@.len() as int, i));
            assert(built[i as int] is Some);
        }
        let recipe = slots[i].take().unwrap();
        resolved.entries.push(recipe);
        i += 1;
    }
    proof {
        let all = resolved@.map_values(|r: Rc<Recipe>| Some(r));
        assert(all =~= built);
        assert forall|v: int| 0 <= v < n implies is_built(
            given[v],
            graph[v],
            *#[trigger] resolved@[v],
            all,
        ) by {
            assert(order@.contains(v as usize));
            let j = choose|j: int| 0 <= j < order@.len() && order@[j] == v as usize;
            assert(placed_before(order@, order@.len() as int, v as usize));
            assert(built[v] is Some);
        }
        assert forall|a: int, b: int| 0 <= a < b < n implies (#[trigger] resolved@[a]).key_spec()
            != (#[trigger] resolved@[b]).key_spec() by {
            assert(order@.contains(a as usize));
            assert(order@.contains(b as usize));
            let ja = choose|j: int| 0 <= j < order@.len() && order@[j] == a as usize;
            let jb = choose|j: int| 0 <= j < order@.len() && order@[j] == b as usize;
            assert(placed_before(order@, order@.len() as int, a as usize));
            assert(placed_before(order@, order@.len() as int, b as usize));
            assert(built[a] is Some && built[b] is Some);
            assert(given[a].key_spec() != given[b].key_spec());
        }
    }
    resolved
}

} // verus!
