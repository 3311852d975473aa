//! Directed graphs keyed by `u64` nodes with `u64` edge weights, from `petgraph`.
use vstd::prelude::*;
use std::collections::hash_map::RandomState;
use std::hash::BuildHasher;
use petgraph::graphmap::{DiGraphMap, GraphMap};
use petgraph::{Directed, Direction};

verus! {

#[verifier::external_type_specification]
#[verifier::external_body]
#[verifier::reject_recursive_types(N)]
#[verifier::reject_recursive_types(E)]
#[verifier::reject_recursive_types(Ty)]
#[verifier::reject_recursive_types(S)]
pub struct ExGraphMap<N, E, Ty, S: BuildHasher>(GraphMap<N, E, Ty, S>);

#[verifier::external_type_specification]
#[verifier::external_body]
pub struct ExDirected(Directed);

/// The nodes of a graph.
pub uninterp spec fn graph_nodes(g: DiGraphMap<u64, u64>) -> Set<u64>;

/// The edges of a graph: the weight of the edge from `a` to `b` under the key `(a, b)`.
pub uninterp spec fn graph_edges(g: DiGraphMap<u64, u64>) -> Map<(u64, u64), u64>;

/// The nodes with an edge into `n`.
pub open spec fn predecessors(edges: Map<(u64, u64), u64>, n: u64) -> Set<u64> {
    Set::new(|m: u64| edges.contains_key((m, n)))
}

/// The nodes with an edge out of `n`.
pub open spec fn successors(edges: Map<(u64, u64), u64>, n: u64) -> Set<u64> {
    Set::new(|m: u64| edges.contains_key((n, m)))
}

/// The edge map of a graph with no edge.
pub open spec fn no_edges() -> Map<(u64, u64), u64> {
    Map::empty()
}

/// A finite set with `n` elements.
pub open spec fn finite_with_len<A>(s: Set<A>, n: nat) -> bool {
    s.finite() && s.len() == n
}

/// `DiGraphMap::new`: a graph with no node and no edge.
#[verifier::external_body]
pub fn graph_new() -> (r: DiGraphMap<u64, u64>)
    ensures
        graph_nodes(r) == Set::<u64>::empty(),
        graph_edges(r) == no_edges(),
{
    DiGraphMap::new()
}

/// `DiGraphMap::add_edge`: sets the weight of the edge from `a` to `b` and adds both
/// nodes if missing; returns the weight the edge had before, if it existed.
#[verifier::external_body]
pub fn graph_add_edge(g: &mut DiGraphMap<u64, u64>, a: u64, b: u64, weight: u64) -> (r: Option<u64>)
    ensures
        graph_nodes(*final(g)) == graph_nodes(*old(g)).insert(a).insert(b),
        graph_edges(*final(g)) == graph_edges(*old(g)).insert((a, b), weight),
        r == (if graph_edges(*old(g)).contains_key((a, b)) {
            Some(graph_edges(*old(g))[(a, b)])
        } else {
            None::<u64>
        }),
{
    g.add_edge(a, b, weight)
}

/// `DiGraphMap::node_count`.
#[verifier::external_body]
pub fn graph_node_count(g: &DiGraphMap<u64, u64>) -> (r: usize)
    ensures
        finite_with_len(graph_nodes(*g), r as nat),
{
    g.node_count()
}

/// `DiGraphMap::edge_count`.
#[verifier::external_body]
pub fn graph_edge_count(g: &DiGraphMap<u64, u64>) -> (r: usize)
    ensures
        finite_with_len(graph_edges(*g).dom(), r as nat),
{
    g.edge_count()
}

/// `DiGraphMap::nodes`, collected: every node once.
#[verifier::external_body]
pub fn graph_node_list(g: &DiGraphMap<u64, u64>) -> (r: Vec<u64>)
    ensures
        r@.no_duplicates(),
        r@.to_set() == graph_nodes(*g),
{
    g.nodes().collect()
}

/// `DiGraphMap::neighbors_directed`, collected: the nodes with an edge into `a`
/// (`incoming`) or out of `a` (otherwise), each once.
#[verifier::external_body]
pub fn graph_neighbors_directed(g: &DiGraphMap<u64, u64>, a: u64, incoming: bool) -> (r: Vec<u64>)
    ensures
        r@.no_duplicates(),
        r@.to_set() == (if incoming {
            predecessors(graph_edges(*g), a)
        } else {
            successors(graph_edges(*g), a)
        }),
{
    let dir = if incoming { Direction::Incoming } else { Direction::Outgoing };
    g.neighbors_directed(a, dir).collect()
}

/// `DiGraphMap::edges`, each edge out of `a` given as (target, weight): every target once.
#[verifier::external_body]
pub fn graph_out_edges(g: &DiGraphMap<u64, u64>, a: u64) -> (r: Vec<(u64, u64)>)
    ensures
        r@.map_values(|e: (u64, u64)| e.0).no_duplicates(),
        r@.map_values(|e: (u64, u64)| e.0).to_set() == successors(graph_edges(*g), a),
        forall|i: int| 0 <= i < r@.len() ==> graph_edges(*g)[(a, (#[trigger] r@[i]).0)] == r@[i].1,
{
    g.edges(a).map(|(_, b, w)| (b, *w)).collect()
}

} // verus!
