//! The shape of the graphs built from traces, and what the longest-path search gives on them.
use vstd::prelude::*;
use crate::callback::{CudaLaunchS, Record};
use crate::cuda::value::Value;
use crate::pdg::compute::ComputeModel;
use crate::pdg::pdg::{lemma_empty_well_numbered, lemma_with_compute_well_numbered, lemma_with_transfer_well_numbered, PdgModel};
use crate::pdg::transfer::TransferModel;
use crate::bindings::graph::{predecessors, successors};
use crate::pdg::paths::{
    alt_weight, is_longest, longest_path_result, lowers, search_after, search_result, sinks, sources, valid_pops,
    Search,
};
use crate::pdg::replay::{
    compute_of, launch_args, launch_args_ok, lemma_launch_args_well_numbered, lemma_replay_well_numbered,
    memcpy_values, replay, replay_ok, transfer_of, Replay,
};

verus! {

/// Every edge joins two nodes of its own: no node lies on two edges, no edge is a
/// loop, and every node lies on an edge.
pub open spec fn separate_edges(nodes: Set<u64>, edges: Map<(u64, u64), u64>) -> bool {
    &&& forall|e: (u64, u64)| #[trigger] edges.contains_key(e) ==> nodes.contains(e.0) && nodes.contains(e.1) && e.0 != e.1
    &&& forall|n: u64| #[trigger] nodes.contains(n) ==> exists|e: (u64, u64)| #[trigger] edges.contains_key(e) && (e.0 == n || e.1 == n)
    &&& forall|e1: (u64, u64), e2: (u64, u64)| #[trigger] edges.contains_key(e1) && #[trigger] edges.contains_key(e2) ==> {
        &&& e1.0 != e2.1
        &&& (e1.0 == e2.0 ==> e1 == e2)
        &&& (e1.1 == e2.1 ==> e1 == e2)
    }
}

/// The edges are separate and each weight fits in an `i64`: the search from a node
/// without an edge into it then cannot overflow, whatever the weights sum to.
pub open spec fn separate_edges_fit(nodes: Set<u64>, edges: Map<(u64, u64), u64>) -> bool {
    &&& separate_edges(nodes, edges)
    &&& forall|e: (u64, u64)| #[trigger] edges.contains_key(e) ==> edges[e] <= i64::MAX
}

/// A graph of separate edges has two nodes for each edge.
pub open spec fn two_nodes_per_edge(g: PdgModel) -> bool {
    &&& g.nodes.finite()
    &&& g.edges.dom().finite()
    &&& g.nodes.len() == 2 * g.edges.dom().len()
}

/// An edge from `next_node` to a new node keeps the edges separate, with two nodes more.
proof fn lemma_with_edge_separate(g: PdgModel)
    requires
        g.well_numbered(),
        separate_edges(g.nodes, g.edges),
        two_nodes_per_edge(g),
        g.next_node + 2 <= u64::MAX,
        g.next_edge + 1 <= u64::MAX,
    ensures
        separate_edges(g.with_edge(g.next_node).nodes, g.with_edge(g.next_node).edges),
        two_nodes_per_edge(g.with_edge(g.next_node)),
{
    let n = g.next_node;
    let m = (n + 1) as u64;
    let h = g.with_edge(n);
    let fresh = (n, m);
    assert(!g.nodes.contains(n));
    assert(!g.nodes.contains(m));
    assert(!g.edges.contains_key(fresh));
    assert forall|x: u64| #[trigger] h.nodes.contains(x) implies exists|e: (u64, u64)| #[trigger] h.edges.contains_key(e) && (e.0 == x || e.1 == x) by {
        if g.nodes.contains(x) {
            let e = choose|e: (u64, u64)| #[trigger] g.edges.contains_key(e) && (e.0 == x || e.1 == x);
            assert(h.edges.contains_key(e));
        } else {
            assert(h.edges.contains_key(fresh));
        }
    }
    assert(h.edges.dom() =~= g.edges.dom().insert(fresh));
    assert(h.nodes.len() == g.nodes.len() + 2);
}

/// Handling the arguments of a launch keeps the edges separate.
proof fn lemma_launch_args_separate(r: Replay, cl: CudaLaunchS, args: Seq<u64>)
    requires
        r.graph.well_numbered(),
        separate_edges(r.graph.nodes, r.graph.edges),
        two_nodes_per_edge(r.graph),
        launch_args_ok(r, cl, args),
    ensures
        separate_edges(launch_args(r, cl, args).graph.nodes, launch_args(r, cl, args).graph.edges),
        two_nodes_per_edge(launch_args(r, cl, args).graph),
    decreases args.len(),
{
    if args.len() > 0 {
        lemma_launch_args_separate(r, cl, args.drop_last());
        lemma_launch_args_well_numbered(r, cl, args.drop_last());
        let p = launch_args(r, cl, args.drop_last());
        if p.state.found_values(args.last()) is Some {
            lemma_with_edge_separate(p.graph);
        }
    }
}

/// In the graph built from a trace, every edge joins two nodes of its own, so there
/// are two nodes for each edge.
pub proof fn lemma_replay_separate_edges(apis: Seq<Record>)
    requires
        replay_ok(apis),
    ensures
        separate_edges(replay(apis).graph.nodes, replay(apis).graph.edges),
        two_nodes_per_edge(replay(apis).graph),
    decreases apis.len(),
{
    if apis.len() == 0 {
        let g = replay(apis).graph;
        assert(g.edges.dom() =~= Set::<(u64, u64)>::empty());
    } else {
        lemma_replay_separate_edges(apis.drop_last());
        lemma_replay_well_numbered(apis.drop_last());
        let r = replay(apis.drop_last());
        match apis.last() {
            Record::CudaMemcpy(m) => {
                lemma_with_edge_separate(r.graph);
            },
            Record::CudaLaunch(cl) => {
                lemma_launch_args_separate(r, cl, r.state.threads[cl.calling_tid].args);
            },
            _ => {},
        }
    }
}

/// Whether `x` was taken out of the queue by one of `pops`.
pub open spec fn popped(pops: Seq<(u64, i64)>, x: u64) -> bool {
    exists|i: int| 0 <= i < pops.len() && (#[trigger] pops[i]).0 == x
}

/// Whether an edge enters `k`.
pub open spec fn has_edge_into(edges: Map<(u64, u64), u64>, k: u64) -> bool {
    exists|a: u64| #[trigger] edges.contains_key((a, k))
}

/// The node an edge into `k` starts at.
pub open spec fn source_of(edges: Map<(u64, u64), u64>, k: u64) -> u64 {
    choose|a: u64| #[trigger] edges.contains_key((a, k))
}

/// The priority a node without an edge into it keeps in a search from `start`.
pub open spec fn start_priority(start: u64, a: u64) -> int {
    if a == start {
        0
    } else {
        i64::MAX as int
    }
}

/// The weight a search from `start` gives the end `k` of an edge, once the start of
/// that edge is taken out of the queue.
pub open spec fn found_weight(edges: Map<(u64, u64), u64>, start: u64, k: u64) -> int {
    start_priority(start, source_of(edges, k)) - edges[(source_of(edges, k), k)]
}

/// Whether the search from `start` knows a weight for `k` after `pops`.
pub open spec fn weight_known(edges: Map<(u64, u64), u64>, start: u64, pops: Seq<(u64, i64)>, k: u64) -> bool {
    has_edge_into(edges, k) && popped(pops, source_of(edges, k))
}

/// The queue and the weights of a search from `start` over separate edges after `pops`.
pub open spec fn separate_search(nodes: Set<u64>, edges: Map<(u64, u64), u64>, start: u64, pops: Seq<(u64, i64)>) -> Search {
    Search {
        queue: Map::new(
            |x: u64| nodes.contains(x) && !popped(pops, x),
            |x: u64| if x == start {
                0i64
            } else if weight_known(edges, start, pops, x) {
                found_weight(edges, start, x) as i64
            } else {
                i64::MAX
            },
        ),
        weights: Map::new(
            |x: u64| x == start || weight_known(edges, start, pops, x),
            |x: u64| if x == start { 0i64 } else { found_weight(edges, start, x) as i64 },
        ),
    }
}

/// Over separate edges, whatever order the nodes leave the queue in, a search from
/// a node without an edge into it gives each edge end the weight its start had, less
/// the edge's weight, once its start has left the queue.
pub proof fn lemma_search_on_separate_edges(nodes: Set<u64>, edges: Map<(u64, u64), u64>, start: u64, pops: Seq<(u64, i64)>)
    requires
        separate_edges(nodes, edges),
        nodes.contains(start),
        predecessors(edges, start).is_empty(),
        valid_pops(nodes, edges, start, pops),
    ensures
        search_after(nodes, edges, start, pops) == separate_search(nodes, edges, start, pops),
    decreases pops.len(),
{
    if pops.len() == 0 {
        let s = search_after(nodes, edges, start, pops);
        let e = separate_search(nodes, edges, start, pops);
        assert(s.queue =~= e.queue);
        assert(s.weights =~= e.weights);
    } else {
        let p = pops.drop_last();
        let (c, cw) = pops.last();
        lemma_search_on_separate_edges(nodes, edges, start, p);
        let s0 = search_after(nodes, edges, start, p);
        let s = search_after(nodes, edges, start, pops);
        let e = separate_search(nodes, edges, start, pops);
        let succ = successors(edges, c);
        assert forall|x: u64| #[trigger] popped(pops, x) <==> popped(p, x) || x == c by {
            if popped(p, x) {
                let i = choose|i: int| 0 <= i < p.len() && (#[trigger] p[i]).0 == x;
                assert(pops[i] == p[i]);
            }
            if x == c {
                assert(pops[pops.len() - 1].0 == x);
            }
            if popped(pops, x) && x != c {
                let i = choose|i: int| 0 <= i < pops.len() && (#[trigger] pops[i]).0 == x;
                assert(p[i] == pops[i]);
            }
        }
        assert(!popped(p, c));
        assert(!has_edge_into(edges, c) ==> cw == start_priority(start, c));
        assert forall|k: u64| #[trigger] edges.contains_key((c, k)) implies source_of(edges, k) == c
            && has_edge_into(edges, k) && k != start && !has_edge_into(edges, c) by {
            assert(has_edge_into(edges, k));
            let a = source_of(edges, k);
            assert(edges.contains_key((a, k)));
            if k == start {
                assert(predecessors(edges, start).contains(c));
            }
            if has_edge_into(edges, c) {
                let b = choose|b: u64| #[trigger] edges.contains_key((b, c));
                assert(edges.contains_key((b, c)));
            }
        }
        assert forall|k: u64| #[trigger] lowers(s0.weights, edges, c, cw, succ, k) <==> edges.contains_key((c, k)) by {
            if edges.contains_key((c, k)) {
                assert(succ.contains(k));
                assert(!s0.weights.contains_key(k));
            }
        }
        assert forall|k: u64| edges.contains_key((c, k)) implies #[trigger] alt_weight(edges, c, cw, k) == found_weight(edges, start, k) by {
        }
        assert forall|k: u64| #[trigger] weight_known(edges, start, pops, k) <==> weight_known(edges, start, p, k) || edges.contains_key((c, k)) by {
            if weight_known(edges, start, pops, k) && source_of(edges, k) == c {
                assert(edges.contains_key((source_of(edges, k), k)));
            }
        }
        assert(s.queue =~= e.queue);
        assert(s.weights =~= e.weights);
    }
}

/// Over separate edges, a search from a node without an edge into it gives the weight
/// of the edge out of that node.
proof fn lemma_search_result_on_separate_edges(nodes: Set<u64>, edges: Map<(u64, u64), u64>, start: u64, t: u64, r: u64)
    requires
        separate_edges(nodes, edges),
        forall|e: (u64, u64)| #[trigger] edges.contains_key(e) ==> edges[e] <= i64::MAX,
        edges.contains_key((start, t)),
        predecessors(edges, start).is_empty(),
        search_result(nodes, edges, start, sinks(nodes, edges), r),
    ensures
        r == edges[(start, t)],
{
    let sk = sinks(nodes, edges);
    let pops = choose|pops: Seq<(u64, i64)>| #[trigger] valid_pops(nodes, edges, start, pops) && {
        let s = search_after(nodes, edges, start, pops);
        &&& s.queue.dom().is_empty()
        &&& is_longest(s.weights, sk, r)
    };
    lemma_search_on_separate_edges(nodes, edges, start, pops);
    let s = separate_search(nodes, edges, start, pops);
    assert(nodes.contains(start));
    assert(!s.queue.contains_key(start));
    assert(popped(pops, start));
    let w = edges[(start, t)];
    assert(has_edge_into(edges, t));
    assert(source_of(edges, t) == start) by {
        assert(edges.contains_key((source_of(edges, t), t)));
    }
    assert(s.weights.contains_key(t));
    assert(s.weights[t] == -w);
    assert(successors(edges, t).is_empty()) by {
        if !successors(edges, t).is_empty() {
            let m = successors(edges, t).choose();
            assert(edges.contains_key((t, m)));
        }
    }
    assert(sk.contains(t));
    assert forall|k: u64| #[trigger] s.weights.contains_key(k) && sk.contains(k) && k != t implies -s.weights[k] <= 0 by {
        if k == start {
            assert(successors(edges, start).contains(t));
        } else {
            let a = source_of(edges, k);
            assert(edges.contains_key((a, k)));
            assert(a != start);
            assert(edges[(a, k)] <= i64::MAX);
        }
    }
}

/// Over separate edges, the longest path is the weight of the heaviest edge.
proof fn lemma_longest_path_on_separate_edges(nodes: Set<u64>, edges: Map<(u64, u64), u64>, r: u64)
    requires
        separate_edges(nodes, edges),
        forall|e: (u64, u64)| #[trigger] edges.contains_key(e) ==> edges[e] <= i64::MAX,
        longest_path_result(nodes, edges, r),
    ensures
        forall|e: (u64, u64)| #[trigger] edges.contains_key(e) ==> edges[e] <= r,
        exists|e: (u64, u64)| #[trigger] edges.contains_key(e) && edges[e] == r,
{
    let f = choose|f: Map<u64, u64>| {
        &&& #[trigger] f.dom() == sources(nodes, edges)
        &&& forall|s: u64| #[trigger] f.contains_key(s) ==> search_result(nodes, edges, s, sinks(nodes, edges), f[s])
        &&& forall|s: u64| #[trigger] f.contains_key(s) ==> f[s] <= r
        &&& exists|s: u64| #[trigger] f.contains_key(s) && f[s] == r
    };
    assert forall|e: (u64, u64)| #[trigger] edges.contains_key(e) implies edges[e] <= r by {
        assert(predecessors(edges, e.0).is_empty()) by {
            if !predecessors(edges, e.0).is_empty() {
                let m = predecessors(edges, e.0).choose();
                assert(edges.contains_key((m, e.0)));
            }
        }
        assert(f.contains_key(e.0));
        lemma_search_result_on_separate_edges(nodes, edges, e.0, e.1, f[e.0]);
    }
    let s = choose|s: u64| #[trigger] f.contains_key(s) && f[s] == r;
    assert(sources(nodes, edges).contains(s));
    let e = choose|e: (u64, u64)| #[trigger] edges.contains_key(e) && (e.0 == s || e.1 == s);
    if e.1 == s {
        assert(predecessors(edges, s).contains(e.0));
    }
    lemma_search_result_on_separate_edges(nodes, edges, s, e.1, f[s]);
}

/// The edge that the `j`-th edge added to a new graph joins: from node `2j` to node `2j + 1`.
pub open spec fn edge_of(j: u64) -> (u64, u64) {
    ((2 * j) as u64, (2 * j + 1) as u64)
}

/// A graph as `PDG::new` and any sequence of `add_compute` and `add_transfer` calls
/// leave it: it is well numbered, knows no value, and its `j`-th edge joins the nodes
/// `2j` and `2j + 1` with weight `j`; so the edges are separate and there are two
/// nodes per edge.
pub open spec fn built_by_adds(g: PdgModel) -> bool {
    &&& g.well_numbered()
    &&& separate_edges(g.nodes, g.edges)
    &&& two_nodes_per_edge(g)
    &&& g.known_values == Map::<u64, Value>::empty()
    &&& g.next_node == 2 * g.next_edge
    &&& forall|j: u64| j < g.next_edge ==> #[trigger] g.edges.contains_key(edge_of(j)) && g.edges[edge_of(j)] == j
    &&& forall|e: (u64, u64)| #[trigger] g.edges.contains_key(e) ==> e == edge_of(g.edges[e])
}

/// A new graph is built by adds (with no add yet).
pub proof fn lemma_empty_built_by_adds()
    ensures
        built_by_adds(PdgModel::empty()),
{
    lemma_empty_well_numbered();
    let g = PdgModel::empty();
    assert(g.edges.dom() =~= Set::<(u64, u64)>::empty());
}

/// Adding an edge from the next node to a graph built by adds: the `j`-th add (where
/// `j` is the number of edges so far) joins the nodes `2j` and `2j + 1` with weight `j`.
proof fn lemma_with_edge_built_by_adds(g: PdgModel, h: PdgModel)
    requires
        built_by_adds(g),
        g.next_node + 2 <= u64::MAX,
        g.next_edge + 1 <= u64::MAX,
        h.well_numbered(),
        h.nodes == g.with_edge(g.next_node).nodes,
        h.edges == g.with_edge(g.next_node).edges,
        h.known_values == g.known_values,
        h.next_node == g.with_edge(g.next_node).next_node,
        h.next_edge == g.with_edge(g.next_node).next_edge,
    ensures
        built_by_adds(h),
        h.edges == g.edges.insert(edge_of(g.next_edge), g.next_edge),
{
    lemma_with_edge_separate(g);
    let j = g.next_edge;
    assert(edge_of(j) == (g.next_node, (g.next_node + 1) as u64));
    assert forall|i: u64| i < h.next_edge implies #[trigger] h.edges.contains_key(edge_of(i)) && h.edges[edge_of(i)] == i by {
        if i < j {
            assert(g.edges.contains_key(edge_of(i)));
            assert(edge_of(i) != edge_of(j));
        }
    }
}

/// What `add_compute` does to a graph built by adds: the node the edge starts at is
/// the next node, `2j` for the `j`-th add, whatever the values passed; the edge joins
/// `2j` and `2j + 1` with weight `j`, `computes` gains `j`, `transfers` is unchanged,
/// and the graph is still built by adds.
pub proof fn lemma_add_compute_built_by_adds(g: PdgModel, src: Option<Value>, key: u64, c: ComputeModel)
    requires
        built_by_adds(g),
        g.can_add(src),
        g.source_node(src, key),
    ensures
        key == g.next_node,
        key == 2 * g.next_edge,
        built_by_adds(g.with_compute(key, c)),
        g.with_compute(key, c).edges == g.edges.insert(edge_of(g.next_edge), g.next_edge),
        g.with_compute(key, c).nodes == g.nodes.insert(edge_of(g.next_edge).0).insert(edge_of(g.next_edge).1),
        g.with_compute(key, c).computes == g.computes.insert(g.next_edge, c),
        g.with_compute(key, c).transfers == g.transfers,
{
    lemma_with_compute_well_numbered(g, key, c);
    lemma_with_edge_built_by_adds(g, g.with_compute(key, c));
}

/// What `add_transfer` does to a graph built by adds: the node the edge starts at is
/// the next node, `2j` for the `j`-th add, whatever the values passed; the edge joins
/// `2j` and `2j + 1` with weight `j`, `transfers` gains `j`, `computes` is unchanged,
/// and the graph is still built by adds.
pub proof fn lemma_add_transfer_built_by_adds(g: PdgModel, src: Option<Value>, key: u64, t: TransferModel)
    requires
        built_by_adds(g),
        g.can_add(src),
        g.source_node(src, key),
    ensures
        key == g.next_node,
        key == 2 * g.next_edge,
        built_by_adds(g.with_transfer(key, t)),
        g.with_transfer(key, t).edges == g.edges.insert(edge_of(g.next_edge), g.next_edge),
        g.with_transfer(key, t).nodes == g.nodes.insert(edge_of(g.next_edge).0).insert(edge_of(g.next_edge).1),
        g.with_transfer(key, t).transfers == g.transfers.insert(g.next_edge, t),
        g.with_transfer(key, t).computes == g.computes,
{
    lemma_with_transfer_well_numbered(g, key, t);
    lemma_with_edge_built_by_adds(g, g.with_transfer(key, t));
}

/// In a graph built by adds, the edge weights are exactly `0..n` for `n` edges, each
/// used once; the numbers of the computations and of the transfers are apart and
/// together make up `0..n`; and there are `2n` nodes.
pub proof fn lemma_built_by_adds_numbering(g: PdgModel)
    requires
        built_by_adds(g),
    ensures
        g.edges.dom().len() == g.next_edge,
        g.nodes.len() == 2 * g.edges.dom().len(),
        forall|e: (u64, u64)| #[trigger] g.edges.contains_key(e) ==> g.edges[e] < g.next_edge,
        forall|e1: (u64, u64), e2: (u64, u64)| #[trigger] g.edges.contains_key(e1) && #[trigger] g.edges.contains_key(e2)
            && g.edges[e1] == g.edges[e2] ==> e1 == e2,
        forall|j: u64| j < g.next_edge ==> #[trigger] g.edges.contains_key(edge_of(j)) && g.edges[edge_of(j)] == j,
        g.computes.dom().disjoint(g.transfers.dom()),
        g.computes.dom().union(g.transfers.dom()) == Set::new(|n: u64| n < g.next_edge),
{
    assert(g.computes.dom().union(g.transfers.dom()) =~= Set::new(|n: u64| n < g.next_edge));
}

/// The longest path of a graph built by adds is the number of its last edge: with `k`
/// edges, `k - 1`.
pub proof fn lemma_longest_path_built_by_adds(g: PdgModel, r: u64)
    requires
        built_by_adds(g),
        longest_path_result(g.nodes, g.edges, r),
    ensures
        r + 1 == g.next_edge,
{
    assert forall|e: (u64, u64)| #[trigger] g.edges.contains_key(e) implies g.edges[e] <= i64::MAX by {
        assert(g.edges[e] < g.next_edge);
    }
    lemma_longest_path_on_separate_edges(g.nodes, g.edges, r);
    let top = choose|e: (u64, u64)| #[trigger] g.edges.contains_key(e) && g.edges[e] == r;
    assert(r < g.next_edge);
    let last = (g.next_edge - 1) as u64;
    assert(g.edges.contains_key(edge_of(last)));
}

/// Handling the arguments of a launch keeps a graph built by adds built by adds.
proof fn lemma_launch_args_built_by_adds(r: Replay, cl: CudaLaunchS, args: Seq<u64>)
    requires
        built_by_adds(r.graph),
        launch_args_ok(r, cl, args),
    ensures
        built_by_adds(launch_args(r, cl, args).graph),
    decreases args.len(),
{
    if args.len() > 0 {
        lemma_launch_args_built_by_adds(r, cl, args.drop_last());
        let p = launch_args(r, cl, args.drop_last());
        if p.state.found_values(args.last()) is Some {
            let found = p.state.found_values(args.last())->0;
            let src = Some(found.0);
            lemma_add_compute_built_by_adds(p.graph, src, p.graph.next_node, compute_of(cl));
        }
    }
}

/// The graph built from a trace is built as by `PDG::new` and a sequence of
/// `add_compute` and `add_transfer` calls: its `j`-th edge joins the nodes `2j` and
/// `2j + 1` with weight `j`.
pub proof fn lemma_replay_built_by_adds(apis: Seq<Record>)
    requires
        replay_ok(apis),
    ensures
        built_by_adds(replay(apis).graph),
    decreases apis.len(),
{
    if apis.len() == 0 {
        lemma_empty_built_by_adds();
    } else {
        lemma_replay_built_by_adds(apis.drop_last());
        let r = replay(apis.drop_last());
        match apis.last() {
            Record::CudaMemcpy(m) => {
                lemma_add_transfer_built_by_adds(r.graph, memcpy_values(r.state, m).1, r.graph.next_node, transfer_of(m));
            },
            Record::CudaLaunch(cl) => {
                lemma_launch_args_built_by_adds(r, cl, r.state.threads[cl.calling_tid].args);
            },
            _ => {},
        }
    }
}

/// The longest path of the graph built from a trace is the number of its last edge:
/// with `k` edges, `k - 1`.
pub proof fn lemma_longest_path_of_trace(apis: Seq<Record>, r: u64)
    requires
        replay_ok(apis),
        longest_path_result(replay(apis).graph.nodes, replay(apis).graph.edges, r),
    ensures
        r + 1 == replay(apis).graph.edges.dom().len(),
{
    lemma_replay_built_by_adds(apis);
    lemma_longest_path_built_by_adds(replay(apis).graph, r);
}

/// A graph built by adds can be searched for its longest path: its edges are separate
/// with weights that fit in an `i64`, and with an edge it has a source.
pub proof fn lemma_built_by_adds_searchable(g: PdgModel)
    requires
        built_by_adds(g),
    ensures
        separate_edges_fit(g.nodes, g.edges),
        g.next_edge >= 1 ==> !sources(g.nodes, g.edges).is_empty(),
{
    assert forall|e: (u64, u64)| #[trigger] g.edges.contains_key(e) implies g.edges[e] <= i64::MAX by {
        assert(g.edges[e] < g.next_edge);
    }
    if g.next_edge >= 1 {
        let e = edge_of(0);
        assert(g.edges.contains_key(e));
        assert(predecessors(g.edges, e.0).is_empty()) by {
            if !predecessors(g.edges, e.0).is_empty() {
                let m = predecessors(g.edges, e.0).choose();
                assert(g.edges.contains_key((m, e.0)));
            }
        }
        assert(sources(g.nodes, g.edges).contains(e.0));
    }
}

} // verus!
