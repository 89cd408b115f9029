//! Depth-first search of a graph for a cycle.

use vstd::prelude::*;

verus! {

/// The graph that `edges` stands for: for each node the nodes that it
/// points to.
pub open spec fn graph_of(edges: Seq<Vec<usize>>) -> Seq<Seq<usize>> {
    Seq::new(edges.len(), |u: int| edges[u]@)
}

/// Whether every edge leads to a node of the graph. A graph is given by
/// the nodes that each of its nodes points to.
pub open spec fn closed(graph: Seq<Seq<usize>>) -> bool {
    forall|u: int, k: int|
        0 <= u < graph.len() && 0 <= k < graph[u].len() ==> (#[trigger] graph[u][k])
            < graph.len()
}

/// Whether the graph has an edge from `u` to `v`.
pub open spec fn is_edge(graph: Seq<Seq<usize>>, u: usize, v: usize) -> bool {
    u < graph.len() && exists|k: int| 0 <= k < graph[u as int].len() && graph[u as int][k] == v
}

/// Whether each node of `path` has an edge to the next.
pub open spec fn is_path(graph: Seq<Seq<usize>>, path: Seq<usize>) -> bool {
    forall|i: int, j: int|
        0 <= i && j == i + 1 && j < path.len() ==> is_edge(graph, #[trigger] path[i], #[trigger] path[j])
}

/// Whether `circle` leads from a node back to itself along edges, passing
/// no node twice on the way.
pub open spec fn is_cycle(graph: Seq<Seq<usize>>, circle: Seq<usize>) -> bool {
    &&& circle.len() >= 2
    &&& circle.first() == circle.last()
    &&& is_path(graph, circle)
    &&& forall|i: int, j: int|
        0 <= i < j < circle.len() - 1 ==> #[trigger] circle[i] != #[trigger] circle[j]
}

/// Whether some path leads from a node back to itself.
pub open spec fn has_cycle(graph: Seq<Seq<usize>>) -> bool {
    exists|path: Seq<usize>|
        path.len() >= 2 && path.first() == path.last() && #[trigger] is_path(graph, path)
}

/// Whether `v` stands among the first `i` of `order`.
pub open spec fn placed_before(order: Seq<usize>, i: int, v: usize) -> bool {
    exists|j: int| 0 <= j < i && order[j] == v
}

/// Whether `order` holds distinct nodes, each after all that it points to.
pub open spec fn is_ordered(graph: Seq<Seq<usize>>, order: Seq<usize>) -> bool {
    &&& forall|i: int| 0 <= i < order.len() ==> (#[trigger] order[i]) < graph.len()
    &&& forall|i: int, j: int| 0 <= i < j < order.len() ==> #[trigger] order[i] != #[trigger] order[j]
    &&& forall|i: int, k: int|
        0 <= i < order.len() && 0 <= k < graph[order[i] as int].len() ==> placed_before(
            order,
            i,
            #[trigger] graph[order[i] as int][k],
        )
}

/// Whether `order` is an order of all the nodes in which each comes after
/// all that it points to.
pub open spec fn is_topological(graph: Seq<Seq<usize>>, order: Seq<usize>) -> bool {
    &&& is_ordered(graph, order)
    &&& forall|u: usize| u < graph.len() ==> order.contains(u)
}

/// Along a path whose nodes are ordered, each node comes before the one
/// that the path began with.
proof fn lemma_path_descends(graph: Seq<Seq<usize>>, order: Seq<usize>, path: Seq<usize>, i: int)
    requires
        is_ordered(graph, order),
        is_path(graph, path),
        0 <= i < order.len(),
        path.len() >= 2,
        order[i] == path[0],
    ensures
        placed_before(order, i, path.last()),
    decreases path.len(),
{
    let u = path[0];
    let v = path[1];
    assert(is_edge(graph, u, v));
    let k = choose|k: int| 0 <= k < graph[u as int].len() && graph[u as int][k] == v;
    assert(placed_before(order, i, graph[order[i] as int][k]));
    let j = choose|j: int| 0 <= j < i && order[j] == v;
    if path.len() > 2 {
        let rest = path.drop_first();
        assert forall|a: int, b: int| 0 <= a && b == a + 1 && b < rest.len() implies is_edge(
            graph,
            #[trigger] rest[a],
            #[trigger] rest[b],
        ) by {
            assert(rest[a] == path[a + 1] && rest[b] == path[b + 1]);
        }
        lemma_path_descends(graph, order, rest, j);
        let m = choose|m: int| 0 <= m < j && order[m] == rest.last();
        assert(order[m] == path.last());
    }
}

/// A graph whose nodes can be ordered so that each comes after all that it
/// points to has no cycle.
pub proof fn lemma_ordered_has_no_cycle(graph: Seq<Seq<usize>>, order: Seq<usize>)
    requires
        is_topological(graph, order),
    ensures
        !has_cycle(graph),
{
    if has_cycle(graph) {
        let path = choose|path: Seq<usize>|
            path.len() >= 2 && path.first() == path.last() && #[trigger] is_path(graph, path);
        assert(is_edge(graph, path[0], path[1]));
        assert(order.contains(path[0]));
        let i = choose|i: int| 0 <= i < order.len() && order[i] == path[0];
        lemma_path_descends(graph, order, path, i);
        let j = choose|j: int| 0 <= j < i && order[j] == path.last();
        assert(order[j] != order[i]);
    }
}

/// The nodes of a cycle are nodes of the graph.
pub proof fn lemma_cycle_nodes(graph: Seq<Seq<usize>>, circle: Seq<usize>)
    requires
        is_cycle(graph, circle),
    ensures
        forall|t: int| 0 <= t < circle.len() ==> (#[trigger] circle[t]) < graph.len(),
{
    assert forall|t: int| 0 <= t < circle.len() implies (#[trigger] circle[t]) < graph.len() by {
        if t < circle.len() - 1 {
            assert(is_edge(graph, circle[t], circle[t + 1]));
        } else {
            assert(is_edge(graph, circle[0], circle[1]));
        }
    }
}

/// A cycle is a path from a node back to itself.
pub proof fn lemma_cycle_is_cycle(graph: Seq<Seq<usize>>, circle: Seq<usize>)
    requires
        is_cycle(graph, circle),
    ensures
        has_cycle(graph),
{
}

/// How far the search has come with a node.
#[derive(Debug, PartialEq, Eq, Clone, Copy, Structural)]
pub enum Mark {
    Unvisited,
    InProgress,
    Done,
}

/// The state of a depth-first search.
pub struct Search {
    /// How far the search has come with each node.
    pub marks: Vec<Mark>,
    /// The nodes in progress: the path from where the search began to
    /// where it stands.
    pub stack: Vec<usize>,
    /// The nodes that are done, in the order in which they were finished.
    pub order: Vec<usize>,
}

/// Why a search stops before it is through.
#[derive(Debug, PartialEq)]
pub enum Halt {
    /// It came upon a node in progress: a circle closes.
    Circle(Vec<usize>),
    /// It came upon an edge that leads to no node.
    Dangling { node: usize, edge: usize },
}

/// What a halt says.
pub enum Stop {
    Circle(Seq<usize>),
    Dangling { node: usize, edge: usize },
}

/// Whether the edge of this number leads from `node` to no node of the
/// graph.
pub open spec fn is_dangling(graph: Seq<Seq<usize>>, node: usize, edge: usize) -> bool {
    node < graph.len() && edge < graph[node as int].len() && graph[node as int][edge as int]
        >= graph.len()
}

/// What a search holds.
pub struct Progress {
    pub marks: Seq<Mark>,
    pub stack: Seq<usize>,
    pub order: Seq<usize>,
}

impl View for Search {
    type V = Progress;

    open spec fn view(&self) -> Progress {
        Progress { marks: self.marks@, stack: self.stack@, order: self.order@ }
    }
}

/// Whether `p` is the first place at which `stack` holds `node`.
pub open spec fn is_first_place(stack: Seq<usize>, node: usize, p: int) -> bool {
    &&& 0 <= p < stack.len()
    &&& stack[p] == node
    &&& forall|q: int| 0 <= q < p ==> stack[q] != node
}

/// The circle that closes when the search comes upon `node`, which is in
/// progress: the nodes in progress from `node` on, and `node` again.
pub open spec fn circle_from(stack: Seq<usize>, node: usize) -> Seq<usize> {
    let p = choose|p: int| is_first_place(stack, node, p);
    stack.subrange(p, stack.len() as int).push(node)
}

proof fn lemma_circle_from(stack: Seq<usize>, node: usize, p: int)
    requires
        is_first_place(stack, node, p),
    ensures
        circle_from(stack, node) == stack.subrange(p, stack.len() as int).push(node),
{
    let q = choose|q: int| is_first_place(stack, node, q);
    assert(is_first_place(stack, node, q));
    if q < p {
        assert(stack[q] != node);
    } else if p < q {
        assert(stack[p] != node);
    }
}

/// What the search of `node`, which was not visited, comes to: the node
/// is in progress while its edges are followed, and done after that unless
/// a circle was found. `fuel` bounds how deep the search goes; it suffices
/// where it is at least the number of nodes that were not visited.
pub open spec fn explore(graph: Seq<Seq<usize>>, p: Progress, node: usize, fuel: nat) -> (
    Progress,
    Option<Stop>,
)
    decreases fuel, 0nat, 0nat,
{
    if fuel == 0 {
        (p, None)
    } else {
        let entered = Progress {
            marks: p.marks.update(node as int, Mark::InProgress),
            stack: p.stack.push(node),
            order: p.order,
        };
        let (after, found) = explore_edges(
            graph,
            entered,
            node,
            graph[node as int].len(),
            (fuel - 1) as nat,
        );
        if found is Some {
            (after, found)
        } else {
            (
                Progress {
                    marks: after.marks.update(node as int, Mark::Done),
                    stack: after.stack.drop_last(),
                    order: after.order.push(node),
                },
                None,
            )
        }
    }
}

/// What following the first `k` edges of `node` comes to. An edge that
/// leads to no node stops the search. An edge to a node that is done is
/// passed over, an edge to a node in progress closes a circle, and a node
/// that was not visited is searched.
pub open spec fn explore_edges(
    graph: Seq<Seq<usize>>,
    p: Progress,
    node: usize,
    k: nat,
    fuel: nat,
) -> (Progress, Option<Stop>)
    decreases fuel, 1nat, k,
{
    if k == 0 {
        (p, None)
    } else {
        let (before, found) = explore_edges(graph, p, node, (k - 1) as nat, fuel);
        if found is Some {
            (before, found)
        } else {
            let child = graph[node as int][k - 1];
            if child >= graph.len() {
                (before, Some(Stop::Dangling { node, edge: (k - 1) as usize }))
            } else {
                match before.marks[child as int] {
                    Mark::Done => (before, None),
                    Mark::InProgress => (
                        before,
                        Some(Stop::Circle(circle_from(before.stack, child))),
                    ),
                    Mark::Unvisited => explore(graph, before, child, fuel),
                }
            }
        }
    }
}

/// A circle that was found stays found when more edges are followed.
proof fn lemma_found_edges(
    graph: Seq<Seq<usize>>,
    p: Progress,
    node: usize,
    k: nat,
    more: nat,
    fuel: nat,
)
    requires
        k <= more,
        explore_edges(graph, p, node, k, fuel).1 is Some,
    ensures
        explore_edges(graph, p, node, more, fuel) == explore_edges(graph, p, node, k, fuel),
    decreases more,
{
    if k < more {
        lemma_found_edges(graph, p, node, k, (more - 1) as nat, fuel);
    }
}

/// The search with no node visited.
pub open spec fn beginning(n: nat) -> Progress {
    Progress { marks: Seq::new(n, |i: int| Mark::Unvisited), stack: Seq::empty(), order: Seq::empty() }
}

/// What the search comes to when it has begun at each of the first `n`
/// nodes that was not visited by then.
pub open spec fn survey(graph: Seq<Seq<usize>>, n: nat) -> (Progress, Option<Stop>)
    decreases n,
{
    if n == 0 {
        (beginning(graph.len()), None)
    } else {
        let (before, found) = survey(graph, (n - 1) as nat);
        if found is Some {
            (before, found)
        } else if before.marks[n - 1] == Mark::Unvisited {
            explore(graph, before, (n - 1) as usize, graph.len())
        } else {
            (before, None)
        }
    }
}

proof fn lemma_found_survey(graph: Seq<Seq<usize>>, n: nat, more: nat)
    requires
        n <= more,
        survey(graph, n).1 is Some,
    ensures
        survey(graph, more) == survey(graph, n),
    decreases more,
{
    if n < more {
        lemma_found_survey(graph, n, (more - 1) as nat);
    }
}

/// What a search of a whole graph finds.
pub enum Outcome {
    Ordered(Seq<usize>),
    Circular(Seq<usize>),
    Dangling { node: usize, edge: usize },
}

/// What the search of a graph finds: the circle or the edge to no node
/// that it comes upon first or, where it comes upon neither, the nodes in
/// the order in which they were finished.
pub open spec fn walk_of(graph: Seq<Seq<usize>>) -> Outcome {
    let (after, found) = survey(graph, graph.len());
    match found {
        Some(Stop::Circle(circle)) => Outcome::Circular(circle),
        Some(Stop::Dangling { node, edge }) => Outcome::Dangling { node, edge },
        None => Outcome::Ordered(after.order),
    }
}

/// What was found, if anything.
pub open spec fn seen(found: Option<Halt>) -> Option<Stop> {
    match found {
        Some(Halt::Circle(circle)) => Some(Stop::Circle(circle@)),
        Some(Halt::Dangling { node, edge }) => Some(Stop::Dangling { node, edge }),
        None => None,
    }
}

/// A graph whose nodes can be ordered so that each comes after all that it
/// points to has no edge to no node.
pub proof fn lemma_ordered_is_closed(graph: Seq<Seq<usize>>, order: Seq<usize>)
    requires
        graph.len() <= usize::MAX,
        is_topological(graph, order),
    ensures
        closed(graph),
{
    assert forall|u: int, k: int| 0 <= u < graph.len() && 0 <= k < graph[u].len() implies (
    #[trigger] graph[u][k]) < graph.len() by {
        assert(order.contains(u as usize));
        let i = choose|i: int| 0 <= i < order.len() && order[i] == u as usize;
        assert(placed_before(order, i, graph[order[i] as int][k]));
        let j = choose|j: int| 0 <= j < i && order[j] == graph[u][k];
        assert(order[j] < graph.len());
    }
}

proof fn lemma_unvisited_bound(marks: Seq<Mark>)
    ensures
        unvisited(marks) <= marks.len(),
    decreases marks.len(),
{
    if marks.len() > 0 {
        lemma_unvisited_bound(marks.drop_last());
    }
}

/// How many of the marks say that a node was not visited yet.
pub open spec fn unvisited(marks: Seq<Mark>) -> nat
    decreases marks.len(),
{
    if marks.len() == 0 {
        0
    } else {
        unvisited(marks.drop_last()) + if marks.last() == Mark::Unvisited {
            1nat
        } else {
            0nat
        }
    }
}

proof fn lemma_unvisited_update(marks: Seq<Mark>, u: int, mark: Mark)
    requires
        0 <= u < marks.len(),
    ensures
        unvisited(marks.update(u, mark)) + (if marks[u] == Mark::Unvisited {
            1nat
        } else {
            0nat
        }) == unvisited(marks) + (if mark == Mark::Unvisited {
            1nat
        } else {
            0nat
        }),
    decreases marks.len(),
{
    let updated = marks.update(u, mark);
    if u == marks.len() - 1 {
        assert(updated.drop_last() =~= marks.drop_last());
    } else {
        assert(updated.drop_last() =~= marks.drop_last().update(u, mark));
        lemma_unvisited_update(marks.drop_last(), u, mark);
    }
}

impl Search {
    /// What holds of a search between two of its steps.
    pub open spec fn inv(&self, graph: Seq<Seq<usize>>) -> bool {
        let n = graph.len();
        let stack = self.stack@;
        let order = self.order@;
        let marks = self.marks@;
        &&& marks.len() == n
        &&& forall|i: int|
            0 <= i < stack.len() ==> (#[trigger] stack[i]) < n && marks[stack[i] as int]
                == Mark::InProgress
        &&& forall|i: int, j: int|
            0 <= i < j < stack.len() ==> #[trigger] stack[i] != #[trigger] stack[j]
        &&& forall|u: usize|
            u < n && #[trigger] marks[u as int] == Mark::InProgress ==> stack.contains(u)
        &&& is_path(graph, stack)
        &&& is_ordered(graph, order)
        &&& forall|i: int| 0 <= i < order.len() ==> marks[(#[trigger] order[i]) as int] == Mark::Done
        &&& forall|u: usize| u < n && #[trigger] marks[u as int] == Mark::Done ==> order.contains(u)
    }
}

/// The circle that closes when the node on top of the stack points to the
/// node at position `p` of the stack.
fn close_circle(stack: &Vec<usize>, p: usize) -> (circle: Vec<usize>)
    requires
        p < stack.len(),
    ensures
        circle@ == stack@.subrange(p as int, stack@.len() as int).push(stack@[p as int]),
{
    let mut circle: Vec<usize> = Vec::new();
    let mut i: usize = p;
    while i < stack.len()
        invariant
            p <= i <= stack.len(),
            circle@ == stack@.subrange(p as int, i as int),
        decreases stack.len() - i,
    {
        circle.push(stack[i]);
        assert(circle@ =~= stack@.subrange(p as int, i + 1));
        i += 1;
    }
    circle.push(stack[p]);
    circle
}

/// Searches from a node that was not visited yet. Returns what stopped
/// the search, or `None` when the node and all that can be reached from it
/// are done.
fn visit(edges: &Vec<Vec<usize>>, node: usize, search: &mut Search) -> (found: Option<Halt>)
    requires
        old(search).inv(graph_of(edges@)),
        node < edges@.len(),
        old(search).marks@[node as int] == Mark::Unvisited,
        old(search).stack@.len() > 0 ==> is_edge(graph_of(edges@), old(search).stack@.last(), node),
    ensures
        forall|fuel: nat|
            fuel >= unvisited(old(search).marks@) ==> #[trigger] explore(
                graph_of(edges@),
                old(search)@,
                node,
                fuel,
            ) == (final(search)@, seen(found)),
        found matches Some(Halt::Circle(circle)) ==> is_cycle(graph_of(edges@), circle@),
        found matches Some(Halt::Dangling { node: from, edge }) ==> is_dangling(
            graph_of(edges@),
            from,
            edge,
        ),
        found is None ==> {
            &&& final(search).inv(graph_of(edges@))
            &&& final(search).stack@ == old(search).stack@
            &&& final(search).marks@[node as int] == Mark::Done
            &&& unvisited(final(search).marks@) < unvisited(old(search).marks@)
            &&& forall|u: int|
                0 <= u < edges@.len() && old(search).marks@[u] == Mark::Done
                    ==> final(search).marks@[u] == Mark::Done
        },
    decreases unvisited(old(search).marks@),
{
    proof {
        lemma_unvisited_update(search.marks@, node as int, Mark::InProgress);
    }
    search.marks[node] = Mark::InProgress;
    search.stack.push(node);
    proof {
        let stack = search.stack@;
        let before = old(search).stack@;
        assert forall|i: int| 0 <= i < stack.len() implies (#[trigger] stack[i]) < edges@.len()
            && search.marks@[stack[i] as int] == Mark::InProgress by {
            if i < before.len() {
                assert(stack[i] == before[i]);
            }
        }
        assert forall|i: int, j: int| 0 <= i < j < stack.len() implies #[trigger] stack[i]
            != #[trigger] stack[j] by {
            assert(stack[i] == before[i]);
            if j < before.len() {
                assert(stack[j] == before[j]);
            }
        }
        assert forall|u: usize|
            u < edges@.len() && #[trigger] search.marks@[u as int]
                == Mark::InProgress implies stack.contains(u) by {
            if u == node {
                assert(stack[before.len() as int] == u);
            } else {
                assert(before.contains(u));
                let i = choose|i: int| 0 <= i < before.len() && before[i] == u;
                assert(stack[i] == u);
            }
        }
        assert forall|i: int, j: int| 0 <= i && j == i + 1 && j < stack.len() implies is_edge(
            graph_of(edges@),
            #[trigger] stack[i],
            #[trigger] stack[j],
        ) by {
            if j < before.len() {
                assert(stack[i] == before[i] && stack[j] == before[j]);
            } else {
                assert(stack[i] == before.last());
            }
        }
        assert forall|i: int| 0 <= i < search.order@.len() implies search.marks@[(
        #[trigger] search.order@[i]) as int] == Mark::Done by {
            assert(old(search).marks@[search.order@[i] as int] == Mark::Done);
        }
    }
    let targets = &edges[node];
    let ghost graph = graph_of(edges@);
    let ghost entered = search@;
    let mut k: usize = 0;
    while k < targets.len()
        invariant
            graph == graph_of(edges@),
            entered == (Progress {
                marks: old(search)@.marks.update(node as int, Mark::InProgress),
                stack: old(search)@.stack.push(node),
                order: old(search)@.order,
            }),
            unvisited(entered.marks) + 1 == unvisited(old(search).marks@),
            forall|f: nat|
                f >= unvisited(entered.marks) ==> #[trigger] explore_edges(
                    graph,
                    entered,
                    node,
                    k as nat,
                    f,
                ) == (search@, None::<Stop>),
            node < edges@.len(),
            targets@ == graph_of(edges@)[node as int],
            k <= targets.len(),
            search.inv(graph_of(edges@)),
            old(search).marks@.len() == edges@.len(),
            search.stack@ == old(search).stack@.push(node),
            unvisited(search.marks@) < unvisited(old(search).marks@),
            forall|j: int| 0 <= j < k ==> (#[trigger] targets@[j]) < edges@.len(),
            forall|j: int| 0 <= j < k ==> search.marks@[(#[trigger] targets@[j]) as int] == Mark::Done,
            forall|u: int|
                0 <= u < edges@.len() && old(search).marks@[u] == Mark::Done ==> search.marks@[u]
                    == Mark::Done,
        decreases targets.len() - k,
    {
        let child = targets[k];
        assert(child == graph_of(edges@)[node as int][k as int]);
        assert(is_edge(graph_of(edges@), node, child));
        if child >= edges.len() {
            proof {
                assert forall|fuel: nat|
                    fuel >= unvisited(old(search).marks@) implies #[trigger] explore(
                    graph,
                    old(search)@,
                    node,
                    fuel,
                ) == (search@, Some(Stop::Dangling { node, edge: k })) by {
                    let f = (fuel - 1) as nat;
                    assert(explore_edges(graph, entered, node, k as nat, f) == (
                        search@,
                        None::<Stop>,
                    ));
                    assert(explore_edges(graph, entered, node, (k + 1) as nat, f) == (
                        search@,
                        Some(Stop::Dangling { node, edge: k }),
                    ));
                    lemma_found_edges(
                        graph,
                        entered,
                        node,
                        (k + 1) as nat,
                        graph[node as int].len(),
                        f,
                    );
                }
            }
            return Some(Halt::Dangling { node, edge: k });
        }
        match search.marks[child] {
            Mark::Done => {
                assert forall|f: nat| f >= unvisited(entered.marks) implies #[trigger] explore_edges(
                    graph,
                    entered,
                    node,
                    (k + 1) as nat,
                    f,
                ) == (search@, None::<Stop>) by {
                    assert(explore_edges(graph, entered, node, k as nat, f) == (
                        search@,
                        None::<Stop>,
                    ));
                }
            },
            Mark::InProgress => {
                let depth = search.stack.len();
                let mut p: usize = 0;
                while search.stack[p] != child
                    invariant
                        p < search.stack@.len() == depth,
                        search.stack@.contains(child),
                        forall|i: int| 0 <= i < p ==> search.stack@[i] != child,
                    decreases search.stack@.len() - p,
                {
                    p += 1;
                    proof {
                        let i = choose|i: int|
                            0 <= i < search.stack@.len() && search.stack@[i] == child;
                        assert(p <= i);
                    }
                }
                let circle = close_circle(&search.stack, p);
                proof {
                    lemma_circle_from(search.stack@, child, p as int);
                    assert forall|fuel: nat|
                        fuel >= unvisited(old(search).marks@) implies #[trigger] explore(
                        graph,
                        old(search)@,
                        node,
                        fuel,
                    ) == (search@, Some(Stop::Circle(circle@))) by {
                        let f = (fuel - 1) as nat;
                        assert(explore_edges(graph, entered, node, k as nat, f) == (
                            search@,
                            None::<Stop>,
                        ));
                        assert(explore_edges(graph, entered, node, (k + 1) as nat, f) == (
                            search@,
                            Some(Stop::Circle(circle@)),
                        ));
                        lemma_found_edges(
                            graph,
                            entered,
                            node,
                            (k + 1) as nat,
                            graph[node as int].len(),
                            f,
                        );
                    }
                    let stack = search.stack@;
                    let c = circle@;
                    assert(c.len() == stack.len() - p + 1);
                    assert forall|i: int, j: int|
                        0 <= i && j == i + 1 && j < c.len() implies is_edge(
                        graph_of(edges@),
                        #[trigger] c[i],
                        #[trigger] c[j],
                    ) by {
                        assert(c[i] == stack[p + i]);
                        if j < c.len() - 1 {
                            assert(c[j] == stack[p + j]);
                        } else {
                            assert(c[i] == node);
                        }
                    }
                    assert forall|i: int, j: int| 0 <= i < j < c.len() - 1 implies #[trigger] c[i]
                        != #[trigger] c[j] by {
                        assert(c[i] == stack[p + i] && c[j] == stack[p + j]);
                    }
                }
                return Some(Halt::Circle(circle));
            },
            Mark::Unvisited => {
                let ghost before = search.marks@;
                let ghost reached = search@;
                let found = visit(edges, child, search);
                proof {
                    assert forall|f: nat|
                        f >= unvisited(entered.marks) implies #[trigger] explore_edges(
                        graph,
                        entered,
                        node,
                        (k + 1) as nat,
                        f,
                    ) == (search@, seen(found)) by {
                        assert(explore_edges(graph, entered, node, k as nat, f) == (
                            reached,
                            None::<Stop>,
                        ));
                        assert(explore(graph, reached, child, f) == (search@, seen(found)));
                    }
                }
                if found.is_some() {
                    proof {
                        assert forall|fuel: nat|
                            fuel >= unvisited(old(search).marks@) implies #[trigger] explore(
                            graph,
                            old(search)@,
                            node,
                            fuel,
                        ) == (search@, seen(found)) by {
                            let f = (fuel - 1) as nat;
                            assert(explore_edges(graph, entered, node, (k + 1) as nat, f) == (
                                search@,
                                seen(found),
                            ));
                            lemma_found_edges(
                                graph,
                                entered,
                                node,
                                (k + 1) as nat,
                                graph[node as int].len(),
                                f,
                            );
                        }
                    }
                    return found;
                }
                proof {
                    assert forall|j: int| 0 <= j < k implies search.marks@[(
                    #[trigger] targets@[j]) as int] == Mark::Done by {
                        assert(before[targets@[j] as int] == Mark::Done);
                    }
                }
            },
        }
        k += 1;
    }
    proof {
        lemma_unvisited_update(search.marks@, node as int, Mark::Done);
        assert(search.stack@.last() == node);
        assert(search.marks@[node as int] == Mark::InProgress);
    }
    let ghost during = *search;
    search.marks[node] = Mark::Done;
    search.stack.pop();
    search.order.push(node);
    proof {
        assert forall|fuel: nat|
            fuel >= unvisited(old(search).marks@) implies #[trigger] explore(
            graph,
            old(search)@,
            node,
            fuel,
        ) == (search@, None::<Stop>) by {
            let f = (fuel - 1) as nat;
            assert(explore_edges(graph, entered, node, k as nat, f) == (
                during@,
                None::<Stop>,
            ));
            assert(search@.stack =~= during@.stack.drop_last());
        }
    }
    proof {
        let stack = search.stack@;
        let order = search.order@;
        let n = edges@.len();
        assert(stack =~= old(search).stack@);
        assert forall|i: int| 0 <= i < stack.len() implies (#[trigger] stack[i]) < n
            && search.marks@[stack[i] as int] == Mark::InProgress by {
            assert(during.stack@[i] == stack[i]);
            assert(during.stack@[i] != during.stack@[stack.len() as int]);
        }
        assert forall|i: int, j: int| 0 <= i < j < stack.len() implies #[trigger] stack[i]
            != #[trigger] stack[j] by {
            assert(during.stack@[i] == stack[i] && during.stack@[j] == stack[j]);
        }
        assert forall|u: usize|
            u < n && #[trigger] search.marks@[u as int] == Mark::InProgress implies stack.contains(
            u,
        ) by {
            assert(during.marks@[u as int] == Mark::InProgress);
            assert(during.stack@.contains(u));
            let i = choose|i: int| 0 <= i < during.stack@.len() && during.stack@[i] == u;
            assert(stack[i] == u);
        }
        assert forall|i: int, j: int| 0 <= i && j == i + 1 && j < stack.len() implies is_edge(
            graph_of(edges@),
            #[trigger] stack[i],
            #[trigger] stack[j],
        ) by {
            assert(during.stack@[i] == stack[i] && during.stack@[j] == stack[j]);
        }
        let last = during.order@.len() as int;
        assert forall|i: int| 0 <= i < order.len() implies (#[trigger] order[i]) < n by {
            if i < last {
                assert(order[i] == during.order@[i]);
            }
        }
        assert forall|i: int| 0 <= i < order.len() implies search.marks@[(
        #[trigger] order[i]) as int] == Mark::Done by {
            if i < last {
                assert(order[i] == during.order@[i]);
            }
        }
        assert forall|i: int, j: int| 0 <= i < j < order.len() implies #[trigger] order[i]
            != #[trigger] order[j] by {
            assert(order[i] == during.order@[i]);
            if j < last {
                assert(order[j] == during.order@[j]);
            } else {
                assert(during.marks@[during.order@[i] as int] == Mark::Done);
            }
        }
        assert forall|i: int, k: int|
            0 <= i < order.len() && 0 <= k < graph_of(edges@)[order[i] as int].len() implies placed_before(
            order,
            i,
            #[trigger] graph_of(edges@)[order[i] as int][k],
        ) by {
            let v = graph_of(edges@)[order[i] as int][k];
            if i < last {
                assert(order[i] == during.order@[i]);
                assert(placed_before(during.order@, i, graph_of(edges@)[during.order@[i] as int][k]));
                let j = choose|j: int| 0 <= j < i && during.order@[j] == v;
                assert(order[j] == v);
            } else {
                assert(during.marks@[targets@[k] as int] == Mark::Done);
                assert(during.order@.contains(v));
                let j = choose|j: int| 0 <= j < during.order@.len() && during.order@[j] == v;
                assert(order[j] == v);
            }
        }
        assert forall|u: usize|
            u < n && #[trigger] search.marks@[u as int] == Mark::Done implies order.contains(
            u,
        ) by {
            if u == node {
                assert(order[last] == u);
            } else {
                assert(during.marks@[u as int] == Mark::Done);
                assert(during.order@.contains(u));
                let j = choose|j: int| 0 <= j < during.order@.len() && during.order@[j] == u;
                assert(order[j] == u);
            }
        }
    }
    None
}

/// What a search of a whole graph finds.
#[derive(Debug, PartialEq)]
pub enum Walk {
    /// No cycle: the nodes, each after all that it points to.
    Ordered(Vec<usize>),
    /// A cycle, from a node back to itself.
    Circular(Vec<usize>),
    /// An edge that leads to no node: the edge of this number of the node.
    Dangling { node: usize, edge: usize },
}

impl View for Walk {
    type V = Outcome;

    open spec fn view(&self) -> Outcome {
        match self {
            Walk::Ordered(order) => Outcome::Ordered(order@),
            Walk::Circular(circle) => Outcome::Circular(circle@),
            Walk::Dangling { node, edge } => Outcome::Dangling { node: *node, edge: *edge },
        }
    }
}

/// Searches a graph depth first, beginning at node after node in their
/// order and following the edges of each node in theirs. The search stops
/// at the first circle and at the first edge to no node that it comes upon.
/// It gets through and orders the nodes just where the graph has neither.
pub fn walk(edges: &Vec<Vec<usize>>) -> (outcome: Walk)
    ensures
        outcome@ == walk_of(graph_of(edges@)),
        outcome matches Walk::Ordered(order) ==> is_topological(graph_of(edges@), order@),
        outcome matches Walk::Circular(circle) ==> is_cycle(graph_of(edges@), circle@),
        outcome matches Walk::Dangling { node, edge } ==> is_dangling(
            graph_of(edges@),
            node,
            edge,
        ),
        outcome is Ordered <==> closed(graph_of(edges@)) && !has_cycle(graph_of(edges@)),
{
    let n = edges.len();
    let mut marks: Vec<Mark> = Vec::new();
    let mut i: usize = 0;
    while i < n
        invariant
            i <= n,
            marks@.len() == i,
            forall|j: int| 0 <= j < i ==> marks@[j] == Mark::Unvisited,
        decreases n - i,
    {
        marks.push(Mark::Unvisited);
        i += 1;
    }
    let mut search = Search { marks, stack: Vec::new(), order: Vec::new() };
    let ghost graph = graph_of(edges@);
    assert(search@.marks =~= beginning(graph.len()).marks);
    let mut root: usize = 0;
    while root < n
        invariant
            graph == graph_of(edges@),
            survey(graph, root as nat) == (search@, None::<Stop>),
            n == edges@.len(),
            root <= n,
            search.inv(graph_of(edges@)),
            search.stack@.len() == 0,
            forall|u: int| 0 <= u < root ==> search.marks@[u] == Mark::Done,
        decreases n - root,
    {
        match search.marks[root] {
            Mark::Unvisited => {
                let ghost before = search@;
                proof {
                    lemma_unvisited_bound(search.marks@);
                }
                let found = visit(edges, root, &mut search);
                assert(explore(graph, before, root, graph.len()) == (search@, seen(found)));
                match found {
                    Some(Halt::Circle(circle)) => {
                        proof {
                            lemma_cycle_is_cycle(graph_of(edges@), circle@);
                            lemma_found_survey(graph, (root + 1) as nat, graph.len());
                        }
                        return Walk::Circular(circle);
                    },
                    Some(Halt::Dangling { node, edge }) => {
                        proof {
                            lemma_found_survey(graph, (root + 1) as nat, graph.len());
                            assert(graph[node as int][edge as int] >= graph.len());
                        }
                        return Walk::Dangling { node, edge };
                    },
                    None => {},
                }
            },
            _ => {
                assert(search.marks@[root as int] != Mark::InProgress) by {
                    if search.marks@[root as int] == Mark::InProgress {
                        assert(search.stack@.contains(root));
                    }
                }
            },
        }
        root += 1;
    }
    proof {
        assert forall|u: usize| u < edges@.len() implies search.order@.contains(u) by {
            assert(search.marks@[u as int] == Mark::Done);
        }
        lemma_ordered_has_no_cycle(graph_of(edges@), search.order@);
        lemma_ordered_is_closed(graph_of(edges@), search.order@);
    }
    Walk::Ordered(search.order)
}

} // verus!
