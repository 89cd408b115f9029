//! The check that the assignments can be evaluated: every variable that they
//! use is defined, and none depends on itself.

use crate::assignment::Assignment;
use crate::compilation_error::CompilationError;
use crate::compilation_error_kind::CompilationErrorKind;
use crate::expression::Reference;
use crate::graph::{
    closed,
    graph_of,
    has_cycle,
    is_cycle,
    is_edge,
    lemma_cycle_nodes,
    walk,
    walk_of,
    Outcome,
    Walk,
};
use crate::keyed::Keyed;
use crate::table::{distinct_keys, has_key, lemma_position, position, Table};
use crate::token::Name;
use vstd::prelude::*;

verus! {

/// The variables among `references`, in their order.
pub open spec fn variables_of(references: Seq<Reference>) -> Seq<Name>
    decreases references.len(),
{
    if references.len() == 0 {
        Seq::empty()
    } else {
        let before = variables_of(references.drop_last());
        match references.last() {
            Reference::Variable { name } => before.push(name),
            Reference::Call { .. } => before,
        }
    }
}

/// The variables that the value of an assignment uses, in the order in
/// which it is written.
pub open spec fn variables_used(assignment: Assignment) -> Seq<Name> {
    variables_of(assignment.value.references_spec())
}

/// Whether assignment `i` uses, as the `r`-th of its variables, one that
/// no assignment defines.
pub open spec fn is_undefined(assignments: Seq<Assignment>, i: int, r: int) -> bool {
    0 <= i < assignments.len() && 0 <= r < variables_used(assignments[i]).len() && !has_key(
        assignments,
        variables_used(assignments[i])[r].lexeme@,
    )
}

/// Whether every variable that an assignment uses is defined.
pub open spec fn all_defined(assignments: Seq<Assignment>) -> bool {
    forall|i: int, r: int| !is_undefined(assignments, i, r)
}

/// The graph of the assignments: each points to the assignments of the
/// variables that its value uses. A variable that is not defined gives an
/// edge that leads to no node.
pub open spec fn variable_graph(assignments: Seq<Assignment>) -> Seq<Seq<usize>> {
    Seq::new(
        assignments.len(),
        |i: int|
            Seq::new(
                variables_used(assignments[i]).len(),
                |r: int| target_of(assignments, variables_used(assignments[i])[r].lexeme@),
            ),
    )
}

/// The node that an edge for the variable of this name leads to.
pub open spec fn target_of(assignments: Seq<Assignment>, name: Seq<char>) -> usize {
    if has_key(assignments, name) {
        position(assignments, name) as usize
    } else {
        assignments.len() as usize
    }
}

/// Every variable is defined just where every edge of the graph leads to
/// a node.
pub proof fn lemma_defined_is_closed(assignments: Seq<Assignment>)
    requires
        assignments.len() <= usize::MAX,
    ensures
        all_defined(assignments) <==> closed(variable_graph(assignments)),
{
    let graph = variable_graph(assignments);
    if all_defined(assignments) {
        assert forall|u: int, k: int| 0 <= u < graph.len() && 0 <= k < graph[u].len() implies (
        #[trigger] graph[u][k]) < graph.len() by {
            assert(!is_undefined(assignments, u, k));
        }
    }
    if closed(graph) {
        assert forall|i: int, r: int| !is_undefined(assignments, i, r) by {
            if is_undefined(assignments, i, r) {
                assert(graph[i][r] < graph.len());
            }
        }
    }
}

/// The positions of the values that are stored under `names`.
pub open spec fn nodes_of<V: Keyed>(entries: Seq<V>, names: Seq<String>) -> Seq<usize> {
    Seq::new(names.len(), |t: int| position(entries, names[t]@) as usize)
}

/// Whether `names` are keys of `entries` that form a cycle in `graph`: the
/// cycle that the search of the graph comes upon first.
pub open spec fn is_named_cycle<V: Keyed>(
    entries: Seq<V>,
    graph: Seq<Seq<usize>>,
    names: Seq<String>,
) -> bool {
    &&& forall|t: int| 0 <= t < names.len() ==> has_key(entries, (#[trigger] names[t])@)
    &&& is_cycle(graph, nodes_of(entries, names))
    &&& walk_of(graph) == Outcome::Circular(nodes_of(entries, names))
}

/// A named cycle begins and ends with the same name and leads from each
/// of its names to the next along an edge of the graph.
pub proof fn lemma_named_cycle<V: Keyed>(
    entries: Seq<V>,
    graph: Seq<Seq<usize>>,
    names: Seq<String>,
)
    requires
        entries.len() <= usize::MAX,
        is_named_cycle(entries, graph, names),
    ensures
        names.len() >= 2,
        names.first()@ == names.last()@,
        forall|t: int|
            0 <= t < names.len() - 1 ==> is_edge(
                graph,
                position(entries, (#[trigger] names[t])@) as usize,
                position(entries, names[t + 1]@) as usize,
            ),
        has_cycle(graph),
{
    let nodes = nodes_of(entries, names);
    assert(nodes.first() == nodes.last());
    let first = position(entries, names.first()@);
    let last = position(entries, names.last()@);
    assert(has_key(entries, names[0]@));
    assert(has_key(entries, names[names.len() - 1]@));
    assert(entries[first].key_spec() == names.first()@);
    assert(entries[last].key_spec() == names.last()@);
    assert(nodes[0] == first as usize);
    assert(nodes[names.len() - 1] == last as usize);
    lemma_cycle_nodes(graph, nodes);
    assert forall|t: int| 0 <= t < names.len() - 1 implies is_edge(
        graph,
        position(entries, (#[trigger] names[t])@) as usize,
        position(entries, names[t + 1]@) as usize,
    ) by {
        assert(is_edge(graph, nodes[t], nodes[t + 1]));
    }
}

/// The error for the use of a variable that is not defined.
pub open spec fn undefined_variable(name: Name) -> CompilationError {
    CompilationError {
        token: name.token_spec(),
        kind: CompilationErrorKind::UndefinedVariable { variable: name.lexeme },
    }
}

/// Whether the assignments can be evaluated: every variable that they use
/// is defined, and none depends on itself.
pub open spec fn assignments_valid(assignments: Seq<Assignment>) -> bool {
    all_defined(assignments) && !has_cycle(variable_graph(assignments))
}

/// Whether `e` is the error of assignments that cannot be evaluated. The
/// assignments are searched in their order, each through the variables
/// that its value uses. The error is the first that this search comes upon:
/// the use of a variable that is not defined, or a cycle of variables of
/// which each uses the next, at the assignment of the variable that the
/// cycle begins and ends with.
pub open spec fn is_assignment_error(assignments: Seq<Assignment>, e: CompilationError) -> bool {
    match walk_of(variable_graph(assignments)) {
        Outcome::Dangling { node, edge } => e == undefined_variable(
            variables_used(assignments[node as int])[edge as int],
        ),
        _ => {
            &&& e.kind matches CompilationErrorKind::CircularVariableDependency { variable, circle }
            &&& is_named_cycle(assignments, variable_graph(assignments), circle@)
            &&& variable@ == circle@[0]@
            &&& e.token == assignments[position(assignments, variable@)].name.token_spec()
        },
    }
}

pub struct AssignmentResolver;

impl AssignmentResolver {
    /// Checks that the assignments can be evaluated: that every variable
    /// they use is defined and that no variable depends on itself. The first
    /// use of an undefined variable is reported; where there is none, a
    /// cycle is, at the variable that it begins and ends with.
    pub fn resolve_assignments(assignments: &Table<Assignment>) -> (result: Result<
        (),
        CompilationError,
    >)
        requires
            assignments.wf(),
        ensures
            result is Ok <==> assignments_valid(assignments@),
            result matches Err(e) ==> is_assignment_error(assignments@, e),
    {
        let n = assignments.len();
        let entries = assignments.values();
        let mut edges: Vec<Vec<usize>> = Vec::new();
        let mut i: usize = 0;
        while i < n
            invariant
                assignments.wf(),
                entries@ == assignments@,
                n == entries@.len(),
                i <= n,
                edges@.len() == i,
                forall|j: int| 0 <= j < i ==> (#[trigger] edges@[j])@ == variable_graph(entries@)[j],
            decreases n - i,
        {
            let used = used_variables(&entries[i]);
            let mut targets: Vec<usize> = Vec::new();
            let mut r: usize = 0;
            while r < used.len()
                invariant
                    assignments.wf(),
                    entries@ == assignments@,
                    n == entries@.len(),
                    i < n,
                    used@ == variables_used(entries@[i as int]),
                    r <= used.len(),
                    targets@.len() == r,
                    forall|s: int|
                        0 <= s < r ==> #[trigger] targets@[s] == target_of(
                            entries@,
                            used@[s].lexeme@,
                        ),
                decreases used.len() - r,
            {
                match assignments.index_of(used[r].lexeme()) {
                    Some(j) => {
                        targets.push(j);
                    },
                    None => {
                        targets.push(n);
                    },
                }
                r += 1;
            }
            assert(targets@ =~= variable_graph(entries@)[i as int]);
            edges.push(targets);
            i += 1;
        }
        proof {
            assert forall|j: int| 0 <= j < n implies #[trigger] graph_of(edges@)[j]
                == variable_graph(entries@)[j] by {}
            assert(graph_of(edges@) =~= variable_graph(entries@));
            lemma_defined_is_closed(entries@);
        }
        match walk(&edges) {
            Walk::Ordered(_) => Ok(()),
            Walk::Dangling { node, edge } => {
                let used = used_variables(&entries[node]);
                let name = &used[edge];
                Err(
                    name.error(
                        CompilationErrorKind::UndefinedVariable { variable: name.lexeme.clone() },
                    ),
                )
            },
            Walk::Circular(nodes) => {
                proof {
                    lemma_cycle_nodes(graph_of(edges@), nodes@);
                }
                let circle = names_of(entries, &nodes);
                let first = &entries[nodes[0]];
                let error = first.name.error(
                    CompilationErrorKind::CircularVariableDependency {
                        variable: first.name.lexeme.clone(),
                        circle,
                    },
                );
                proof {
                    lemma_names_are_nodes(entries@, nodes@, circle@);
                    lemma_position(entries@, first.name.lexeme@, nodes@[0] as int);
                }
                Err(error)
            },
        }
    }
}

/// The variables that the value of an assignment uses.
pub fn used_variables(assignment: &Assignment) -> (used: Vec<Name>)
    ensures
        used@ == variables_used(*assignment),
{
    let references = assignment.value.references();
    let mut used: Vec<Name> = Vec::new();
    let mut k: usize = 0;
    assert(references@.take(0) =~= Seq::empty());
    while k < references.len()
        invariant
            k <= references.len(),
            used@ == variables_of(references@.take(k as int)),
        decreases references.len() - k,
    {
        proof {
            assert(references@.take(k + 1).drop_last() =~= references@.take(k as int));
            assert(references@.take(k + 1).last() == references@[k as int]);
        }
        match &references[k] {
            Reference::Variable { name } => {
                used.push(name.duplicate());
            },
            Reference::Call { .. } => {},
        }
        k += 1;
    }
    assert(references@.take(k as int) =~= references@);
    used
}

/// The keys of the values at `nodes`.
pub fn names_of<V: Keyed>(entries: &Vec<V>, nodes: &Vec<usize>) -> (names: Vec<String>)
    requires
        forall|t: int| 0 <= t < nodes@.len() ==> (#[trigger] nodes@[t]) < entries@.len(),
    ensures
        names@.len() == nodes@.len(),
        forall|t: int|
            0 <= t < nodes@.len() ==> (#[trigger] names@[t])@ == entries@[nodes@[t] as int].key_spec(),
{
    let mut names: Vec<String> = Vec::new();
    let mut t: usize = 0;
    while t < nodes.len()
        invariant
            t <= nodes.len(),
            names@.len() == t,
            forall|s: int| 0 <= s < nodes@.len() ==> (#[trigger] nodes@[s]) < entries@.len(),
            forall|s: int|
                0 <= s < t ==> (#[trigger] names@[s])@ == entries@[nodes@[s] as int].key_spec(),
        decreases nodes.len() - t,
    {
        names.push(String::from_str(entries[nodes[t]].key()));
        t += 1;
    }
    names
}

/// Where keys are distinct, the names of nodes lead back to the nodes.
pub proof fn lemma_names_are_nodes<V: Keyed>(
    entries: Seq<V>,
    nodes: Seq<usize>,
    names: Seq<String>,
)
    requires
        distinct_keys(entries),
        names.len() == nodes.len(),
        forall|t: int| 0 <= t < nodes.len() ==> (#[trigger] nodes[t]) < entries.len(),
        forall|t: int|
            0 <= t < nodes.len() ==> (#[trigger] names[t])@ == entries[nodes[t] as int].key_spec(),
    ensures
        nodes_of(entries, names) == nodes,
        forall|t: int| 0 <= t < names.len() ==> has_key(entries, (#[trigger] names[t])@),
{
    assert forall|t: int| 0 <= t < names.len() implies has_key(entries, (#[trigger] names[t])@)
        && position(entries, names[t]@) == nodes[t] by {
        lemma_position(entries, names[t]@, nodes[t] as int);
    }
    assert(nodes_of(entries, names) =~= nodes);
}

} // verus!
