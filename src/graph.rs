use vstd::prelude::*;
use petgraph::graphmap::GraphMap;
use petgraph::Directed;

verus! {

#[verifier::external_type_specification]
#[verifier::external_body]
pub struct ExDirected(Directed);

#[verifier::external_type_specification]
#[verifier::external_body]
#[verifier::reject_recursive_types(N)]
#[verifier::reject_recursive_types(E)]
#[verifier::reject_recursive_types(Ty)]
#[verifier::reject_recursive_types(S)]
pub struct ExGraphMap<N, E, Ty, S: core::hash::BuildHasher>(GraphMap<N, E, Ty, S>);

/// A basic-block graph: nodes are block numbers, an edge's weight tells
/// whether the jump is conditional.
pub type BlockGraph = GraphMap<u64, bool, Directed>;

/// The nodes of a block graph, in the order in which they were inserted.
pub uninterp spec fn graph_nodes(g: BlockGraph) -> Seq<u64>;

/// The edges of a block graph with their weights.
pub uninterp spec fn graph_edges(g: BlockGraph) -> Map<(u64, u64), bool>;

/// `nodes` after inserting `x`, which goes at the end if it is new.
pub open spec fn with_node(nodes: Seq<u64>, x: u64) -> Seq<u64> {
    if nodes.contains(x) {
        nodes
    } else {
        nodes.push(x)
    }
}

/// Relies on `GraphMap::new`: a graph without nodes or edges.
#[verifier::external_body]
pub(crate) fn graph_new() -> (r: BlockGraph)
    ensures
        graph_nodes(r).len() == 0,
        forall|k: (u64, u64)| !graph_edges(r).contains_key(k),
{
    GraphMap::new()
}

/// Relies on `GraphMap::add_edge`: inserts `a`, then `b`, as nodes if they
/// are new, and sets the weight of the edge from `a` to `b`.
#[verifier::external_body]
pub(crate) fn graph_add_edge(g: &mut BlockGraph, a: u64, b: u64, w: bool)
    ensures
        graph_edges(*final(g)) == graph_edges(*old(g)).insert((a, b), w),
        graph_nodes(*final(g)) == with_node(with_node(graph_nodes(*old(g)), a), b),
{
    g.add_edge(a, b, w);
}

/// Relies on `GraphMap::nodes`: the nodes in insertion order.
#[verifier::external_body]
pub(crate) fn graph_node_list(g: &BlockGraph) -> (r: Vec<u64>)
    ensures
        r@ == graph_nodes(*g),
{
    g.nodes().collect()
}

/// Relies on `GraphMap::neighbors_directed` with `Incoming`: each source of an
/// edge into `n`, once.
#[verifier::external_body]
pub(crate) fn graph_predecessors(g: &BlockGraph, n: u64) -> (r: Vec<u64>)
    ensures
        r@.no_duplicates(),
        forall|x: u64| r@.contains(x) <==> graph_edges(*g).contains_key((x, n)),
{
    g.neighbors_directed(n, petgraph::Direction::Incoming).collect()
}

/// Relies on `GraphMap::edge_weight`: the weight of the edge from `a` to `b`.
#[verifier::external_body]
pub(crate) fn graph_edge_weight(g: &BlockGraph, a: u64, b: u64) -> (r: Option<bool>)
    ensures
        r == (if graph_edges(*g).contains_key((a, b)) {
            Some(graph_edges(*g)[(a, b)])
        } else {
            None
        }),
{
    g.edge_weight(a, b).copied()
}

} // verus!
