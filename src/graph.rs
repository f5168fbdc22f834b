//! The transition graph: a directed graph of the `petgraph` crate with one
//! node per catalog index and unit-weight edges, seen by the library through
//! its node count and its edge list.

use petgraph::graph::DiGraph;
use vstd::prelude::*;

verus! {

#[verifier::external_type_specification]
#[verifier::external_body]
#[verifier::reject_recursive_types(N)]
#[verifier::reject_recursive_types(E)]
#[verifier::reject_recursive_types(Ty)]
#[verifier::reject_recursive_types(Ix)]
pub struct ExGraph<N, E, Ty, Ix>(petgraph::graph::Graph<N, E, Ty, Ix>);

#[verifier::external_type_specification]
#[verifier::external_body]
pub struct ExDirected(petgraph::Directed);

/// The transition graph as the library builds it.
pub type TransitionGraph = DiGraph<(), usize>;

/// Number of nodes of a transition graph.
pub uninterp spec fn graph_node_count(g: DiGraph<(), usize>) -> nat;

/// Edges of a transition graph, in insertion order, as (source, target, weight).
pub uninterp spec fn graph_edges(g: DiGraph<(), usize>) -> Seq<(usize, usize, usize)>;

/// Some edge of `edges` goes from `a` to `b`.
pub open spec fn has_edge(edges: Seq<(usize, usize, usize)>, a: int, b: int) -> bool {
    exists|k: int| 0 <= k < edges.len() && edges[k].0 == a && edges[k].1 == b
}

/// `p` is a walk from `from` to `to` along steps that `step` allows.
pub open spec fn is_walk(step: spec_fn(int, int) -> bool, p: Seq<usize>, from: int, to: int) -> bool {
    &&& p.len() >= 1
    &&& p[0] == from
    &&& p[p.len() - 1] == to
    &&& forall|k: int| 0 <= k < p.len() - 1 ==> #[trigger] step(p[k] as int, p[k + 1] as int)
}

/// Some walk leads from `from` to `to`.
pub open spec fn reachable(step: spec_fn(int, int) -> bool, from: int, to: int) -> bool {
    exists|p: Seq<usize>| is_walk(step, p, from, to)
}

/// The steps of the edge list `edges`.
pub open spec fn edge_step(edges: Seq<(usize, usize, usize)>) -> spec_fn(int, int) -> bool {
    |a: int, b: int| has_edge(edges, a, b)
}

/// Relies on `Graph::new`: an empty graph.
#[verifier::external_body]
pub(crate) fn empty_graph() -> (g: TransitionGraph)
    ensures
        graph_node_count(g) == 0,
        graph_edges(g) == Seq::<(usize, usize, usize)>::empty(),
{
    DiGraph::new()
}

/// Relies on `Graph::add_node`: the new node's index is the former node
/// count. It panics only when the count reaches the index type's maximum.
#[verifier::external_body]
pub(crate) fn add_node(g: &mut TransitionGraph) -> (r: usize)
    requires
        graph_node_count(*old(g)) < u32::MAX,
    ensures
        r == graph_node_count(*old(g)),
        graph_node_count(*final(g)) == graph_node_count(*old(g)) + 1,
        graph_edges(*final(g)) == graph_edges(*old(g)),
{
    g.add_node(()).index()
}

/// Relies on `Graph::add_edge`: the edge is appended to the edge list. It
/// panics when a node does not exist or the edge count reaches the index
/// type's maximum.
#[verifier::external_body]
pub(crate) fn add_edge(g: &mut TransitionGraph, a: usize, b: usize, w: usize)
    requires
        a < graph_node_count(*old(g)),
        b < graph_node_count(*old(g)),
        graph_edges(*old(g)).len() < u32::MAX,
    ensures
        graph_node_count(*final(g)) == graph_node_count(*old(g)),
        graph_edges(*final(g)) == graph_edges(*old(g)).push((a, b, w)),
{
    g.add_edge(petgraph::graph::NodeIndex::new(a), petgraph::graph::NodeIndex::new(b), w);
}

/// Relies on `petgraph::algo::astar` with a zero estimate: on a graph whose
/// edges all weigh 1 it returns a walk with the fewest edges from `from` to
/// `to`, with its cost, and `None` when `to` cannot be reached.
#[verifier::external_body]
pub(crate) fn shortest_path(g: &TransitionGraph, from: usize, to: usize) -> (r: Option<(usize, Vec<usize>)>)
    requires
        from < graph_node_count(*g),
        to < graph_node_count(*g),
        forall|k: int| 0 <= k < graph_edges(*g).len() ==> #[trigger] graph_edges(*g)[k].2 == 1,
    ensures
        r is None <==> !reachable(edge_step(graph_edges(*g)), from as int, to as int),
        r matches Some((c, p)) ==> {
            &&& is_walk(edge_step(graph_edges(*g)), p@, from as int, to as int)
            &&& c + 1 == p@.len()
            &&& forall|q: Seq<usize>| is_walk(edge_step(graph_edges(*g)), q, from as int, to as int)
                ==> p@.len() <= q.len()
        },
{
    let goal = petgraph::graph::NodeIndex::new(to);
    petgraph::algo::astar(g, petgraph::graph::NodeIndex::new(from), |n| n == goal, |e| *e.weight(), |_| 0)
        .map(|(c, p)| (c, p.into_iter().map(|n| n.index()).collect()))
}

/// Relies on `petgraph::algo::has_path_connecting`: whether `to` can be
/// reached from `from`, `from` itself included.
#[verifier::external_body]
pub(crate) fn path_exists(g: &TransitionGraph, from: usize, to: usize) -> (r: bool)
    requires
        from < graph_node_count(*g),
        to < graph_node_count(*g),
    ensures
        r == reachable(edge_step(graph_edges(*g)), from as int, to as int),
{
    petgraph::algo::has_path_connecting(g, petgraph::graph::NodeIndex::new(from), petgraph::graph::NodeIndex::new(to), None)
}

} // verus!
