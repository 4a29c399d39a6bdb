//! The inheritance graph, held in a `petgraph` directed graph.
//!
//! Nodes are numbered in the order in which they are added; each node's
//! weight is the position of the target it stands for.
use petgraph::graph::{DiGraph, NodeIndex};
use vstd::prelude::*;

verus! {

#[verifier::external_type_specification]
#[verifier::external_body]
#[verifier::reject_recursive_types(N)]
#[verifier::reject_recursive_types(E)]
#[verifier::reject_recursive_types(Ty)]
#[verifier::reject_recursive_types(Ix)]
pub struct ExGraph<N, E, Ty, Ix>(petgraph::graph::Graph<N, E, Ty, Ix>);

#[verifier::external_type_specification]
#[verifier::external_body]
pub struct ExDirected(petgraph::Directed);

/// The node weights of a graph, in node-index order.
pub uninterp spec fn graph_nodes(g: DiGraph<usize, ()>) -> Seq<usize>;

/// The edges of a graph as (source, target) node indices, in insertion order.
pub uninterp spec fn graph_edges(g: DiGraph<usize, ()>) -> Seq<(usize, usize)>;

/// There is an edge from `a` to `b`.
pub open spec fn has_edge(edges: Seq<(usize, usize)>, a: int, b: int) -> bool {
    exists|e: int| 0 <= e < edges.len() && edges[e].0 == a && edges[e].1 == b
}

/// `p` is a closed walk of at least one edge.
pub open spec fn is_cycle(edges: Seq<(usize, usize)>, p: Seq<int>) -> bool {
    &&& p.len() >= 2
    &&& p[0] == p.last()
    &&& forall|k: int| 0 <= k < p.len() - 1 ==> #[trigger] has_edge(edges, p[k], p[k + 1])
}

/// The graph holds a cycle (a self-loop counts as one).
pub open spec fn has_cycle(edges: Seq<(usize, usize)>) -> bool {
    exists|p: Seq<int>| is_cycle(edges, p)
}

/// `v` is one of the members of `order`.
pub open spec fn occurs_in(order: Seq<usize>, v: int) -> bool {
    exists|i: int| 0 <= i < order.len() && order[i] == v
}

/// `order` lists each of the `n` nodes exactly once, and every edge goes from
/// an earlier node to a later one.
pub open spec fn is_topological_order(n: nat, edges: Seq<(usize, usize)>, order: Seq<usize>) -> bool {
    &&& order.len() == n
    &&& forall|i: int| 0 <= i < n ==> #[trigger] order[i] < n
    &&& forall|i: int, j: int| 0 <= i < j < n ==> order[i] != order[j]
    &&& forall|v: int| 0 <= v < n ==> #[trigger] occurs_in(order, v)
    &&& forall|e: int|
        0 <= e < edges.len() ==> exists|i: int, j: int|
            0 <= i < j < n && order[i] == (#[trigger] edges[e]).0 && order[j] == edges[e].1
}

/// The result of `petgraph::algo::toposort` on a graph with `n` nodes and the
/// given edges (in insertion order): the order it returns, or `None` for its
/// cycle error.
pub uninterp spec fn toposort_order(n: nat, edges: Seq<(usize, usize)>) -> Option<Seq<usize>>;

/// `DiGraph::new`: an empty directed graph.
#[verifier::external_body]
pub(crate) fn new_graph() -> (g: DiGraph<usize, ()>)
    ensures
        graph_nodes(g) == Seq::<usize>::empty(),
        graph_edges(g) == Seq::<(usize, usize)>::empty(),
{
    DiGraph::new()
}

/// `Graph::add_node`: appends a node with the given weight and returns its
/// index, which is the number of nodes before the call. petgraph panics when
/// the `u32` index space is exhausted, which `requires` rules out.
#[verifier::external_body]
pub(crate) fn add_node(g: &mut DiGraph<usize, ()>, weight: usize) -> (ix: usize)
    requires
        graph_nodes(*old(g)).len() < u32::MAX,
    ensures
        graph_nodes(*final(g)) == graph_nodes(*old(g)).push(weight),
        graph_edges(*final(g)) == graph_edges(*old(g)),
        ix == graph_nodes(*old(g)).len(),
{
    g.add_node(weight).index()
}

/// `Graph::add_edge`: appends an edge from `a` to `b`. petgraph panics when a
/// node does not exist or the edge index space is exhausted, which `requires`
/// rules out.
#[verifier::external_body]
pub(crate) fn add_edge(g: &mut DiGraph<usize, ()>, a: usize, b: usize)
    requires
        a < graph_nodes(*old(g)).len(),
        b < graph_nodes(*old(g)).len(),
        graph_nodes(*old(g)).len() < u32::MAX,
        graph_edges(*old(g)).len() < u32::MAX,
    ensures
        graph_nodes(*final(g)) == graph_nodes(*old(g)),
        graph_edges(*final(g)) == graph_edges(*old(g)).push((a, b)),
{
    g.add_edge(NodeIndex::new(a), NodeIndex::new(b), ());
}

/// `petgraph::algo::toposort`: on an acyclic graph, every node in an order in
/// which each node comes before its successors; on a graph with a cycle, an
/// error. Which of the possible orders comes back is only named
/// (`toposort_order`, a function of the node count and the edges), not stated.
#[verifier::external_body]
pub(crate) fn toposort(g: &DiGraph<usize, ()>) -> (r: Result<Vec<usize>, ()>)
    ensures
        match r {
            Ok(order) => toposort_order(graph_nodes(*g).len(), graph_edges(*g)) == Some(order@)
                && is_topological_order(graph_nodes(*g).len(), graph_edges(*g), order@),
            Err(_) => toposort_order(graph_nodes(*g).len(), graph_edges(*g)) is None && has_cycle(
                graph_edges(*g),
            ),
        },
{
    match petgraph::algo::toposort(g, None) {
        Ok(order) => Ok(order.iter().map(|n| n.index()).collect()),
        Err(_) => Err(()),
    }
}

/// A graph whose nodes can be put in a topological order has no cycle.
pub proof fn lemma_topological_order_acyclic(
    n: nat,
    edges: Seq<(usize, usize)>,
    order: Seq<usize>,
)
    requires
        is_topological_order(n, edges, order),
    ensures
        !has_cycle(edges),
{
    if has_cycle(edges) {
        let p = choose|p: Seq<int>| is_cycle(edges, p);
        let pos = |v: int| choose|i: int| 0 <= i < n && order[i] == v;
        // Along the walk, positions strictly increase.
        assert forall|k: int| 0 <= k < p.len() - 1 implies {
            &&& 0 <= #[trigger] pos(p[k]) < pos(p[k + 1]) < n
            &&& order[pos(p[k])] == p[k]
            &&& order[pos(p[k + 1])] == p[k + 1]
        } by {
            assert(has_edge(edges, p[k], p[k + 1]));
            let e = choose|e: int| 0 <= e < edges.len() && edges[e].0 == p[k] && edges[e].1 == p[k + 1];
            let (i, j) = choose|i: int, j: int|
                0 <= i < j < n && order[i] == (#[trigger] edges[e]).0 && order[j] == edges[e].1;
            let pi = pos(p[k]);
            let pj = pos(p[k + 1]);
            if pi != i {
                if pi < i {
                    assert(order[pi] != order[i]);
                } else {
                    assert(order[i] != order[pi]);
                }
            }
            if pj != j {
                if pj < j {
                    assert(order[pj] != order[j]);
                } else {
                    assert(order[j] != order[pj]);
                }
            }
        }
        assert forall|k: int| 1 <= k < p.len() implies pos(p[0]) < #[trigger] pos(p[k]) by {
            lemma_positions_increase(p, pos, k);
        }
        assert(pos(p[0]) < pos(p[p.len() - 1]));
    }
}

proof fn lemma_positions_increase(p: Seq<int>, pos: spec_fn(int) -> int, k: int)
    requires
        1 <= k < p.len(),
        forall|m: int| 0 <= m < p.len() - 1 ==> #[trigger] pos(p[m]) < pos(p[m + 1]),
    ensures
        pos(p[0]) < pos(p[k]),
    decreases k,
{
    assert(pos(p[k - 1]) < pos(p[k - 1 + 1]));
    if k > 1 {
        lemma_positions_increase(p, pos, k - 1);
    }
}


/// The edges after appending `x` are the edges before plus `x`.
pub proof fn lemma_has_edge_push(edges: Seq<(usize, usize)>, x: (usize, usize), a: int, b: int)
    ensures
        has_edge(edges.push(x), a, b) == (has_edge(edges, a, b) || (x.0 == a && x.1 == b)),
{
    let pushed = edges.push(x);
    if has_edge(pushed, a, b) {
        let e = choose|e: int| 0 <= e < pushed.len() && pushed[e].0 == a && pushed[e].1 == b;
        if e < edges.len() {
            assert(edges[e] == pushed[e]);
        }
    }
    if has_edge(edges, a, b) {
        let e = choose|e: int| 0 <= e < edges.len() && edges[e].0 == a && edges[e].1 == b;
        assert(pushed[e] == edges[e]);
    }
    if x.0 == a && x.1 == b {
        assert(pushed[edges.len() as int] == x);
    }
}

} // verus!
