//! What the longest-path search over the dependence graph computes.
use vstd::prelude::*;
use crate::bindings::graph::{predecessors, successors};

verus! {

/// The largest edge weight for which the search over a graph of `n` nodes cannot
/// overflow an `i64`.
pub open spec fn weight_bound(n: nat) -> int {
    (i64::MAX as int) / ((n + 1) as int)
}

/// Every edge weight is at most `weight_bound(n)`.
pub open spec fn weights_bounded(edges: Map<(u64, u64), u64>, n: nat) -> bool {
    forall|e: (u64, u64)| #[trigger] edges.contains_key(e) ==> edges[e] <= weight_bound(n)
}

/// The queue at the start of a search from `start`: every node, with priority 0 for
/// `start` and `i64::MAX` for the others.
pub open spec fn initial_queue(nodes: Set<u64>, start: u64) -> Map<u64, i64> {
    Map::new(|k: u64| nodes.contains(k), |k: u64| if k == start { 0i64 } else { i64::MAX })
}

/// The weights known at the start of a search from `start`.
pub open spec fn initial_weights(start: u64) -> Map<u64, i64> {
    Map::empty().insert(start, 0i64)
}

/// `cw` minus the weight of the edge from `c` to `k`.
pub open spec fn alt_weight(edges: Map<(u64, u64), u64>, c: u64, cw: i64, k: u64) -> int {
    cw - edges[(c, k)]
}

/// Whether the edge from `c` to `k`, with `k` among `t`, lowers the weight known for `k`.
pub open spec fn lowers(weights: Map<u64, i64>, edges: Map<(u64, u64), u64>, c: u64, cw: i64, t: Set<u64>, k: u64) -> bool {
    &&& t.contains(k)
    &&& edges.contains_key((c, k))
    &&& (!weights.contains_key(k) || alt_weight(edges, c, cw, k) < weights[k])
}

/// The queue after the edges from `c` to the nodes of `t` are relaxed.
pub open spec fn relax_queue(
    queue: Map<u64, i64>,
    weights: Map<u64, i64>,
    edges: Map<(u64, u64), u64>,
    c: u64,
    cw: i64,
    t: Set<u64>,
) -> Map<u64, i64> {
    Map::new(
        |k: u64| queue.contains_key(k),
        |k: u64| if lowers(weights, edges, c, cw, t, k) { alt_weight(edges, c, cw, k) as i64 } else { queue[k] },
    )
}

/// The known weights after the edges from `c` to the nodes of `t` are relaxed.
pub open spec fn relax_weights(weights: Map<u64, i64>, edges: Map<(u64, u64), u64>, c: u64, cw: i64, t: Set<u64>) -> Map<u64, i64> {
    Map::new(
        |k: u64| weights.contains_key(k) || lowers(weights, edges, c, cw, t, k),
        |k: u64| if lowers(weights, edges, c, cw, t, k) { alt_weight(edges, c, cw, k) as i64 } else { weights[k] },
    )
}

/// The queue and the known weights of a search.
#[verifier::ext_equal]
pub ghost struct Search {
    pub queue: Map<u64, i64>,
    pub weights: Map<u64, i64>,
}

/// The search from `start` after the nodes of `pops` were taken out of the queue, in
/// order, each with its priority, and the edges out of each relaxed.
pub open spec fn search_after(nodes: Set<u64>, edges: Map<(u64, u64), u64>, start: u64, pops: Seq<(u64, i64)>) -> Search
    decreases pops.len(),
{
    if pops.len() == 0 {
        Search { queue: initial_queue(nodes, start), weights: initial_weights(start) }
    } else {
        let s = search_after(nodes, edges, start, pops.drop_last());
        let (c, cw) = pops.last();
        Search {
            queue: relax_queue(s.queue.remove(c), s.weights, edges, c, cw, successors(edges, c)),
            weights: relax_weights(s.weights, edges, c, cw, successors(edges, c)),
        }
    }
}

/// Whether every node of `pops` had, when it was taken, the greatest priority in the queue.
pub open spec fn valid_pops(nodes: Set<u64>, edges: Map<(u64, u64), u64>, start: u64, pops: Seq<(u64, i64)>) -> bool
    decreases pops.len(),
{
    if pops.len() == 0 {
        true
    } else {
        let s = search_after(nodes, edges, start, pops.drop_last());
        let (c, cw) = pops.last();
        &&& valid_pops(nodes, edges, start, pops.drop_last())
        &&& s.queue.contains_key(c)
        &&& s.queue[c] == cw
        &&& forall|k: u64| #[trigger] s.queue.contains_key(k) ==> s.queue[k] <= cw
    }
}

/// `r` is the greatest negated weight known for a sink, or 0 if none is positive.
pub open spec fn is_longest(weights: Map<u64, i64>, sinks: Set<u64>, r: u64) -> bool {
    &&& forall|k: u64| #[trigger] weights.contains_key(k) && sinks.contains(k) ==> -weights[k] <= r
    &&& (r == 0 || exists|k: u64| #[trigger] weights.contains_key(k) && sinks.contains(k) && -weights[k] == r)
}

/// `r` is what a search from `start` gives: the queue is emptied, each time by taking
/// a node of greatest priority (which of several such nodes is taken is open), and
/// `r` is then the longest weight known for a sink.
pub open spec fn search_result(nodes: Set<u64>, edges: Map<(u64, u64), u64>, start: u64, sinks: Set<u64>, r: u64) -> bool {
    exists|pops: Seq<(u64, i64)>| #[trigger] valid_pops(nodes, edges, start, pops) && {
        let s = search_after(nodes, edges, start, pops);
        &&& s.queue.dom().is_empty()
        &&& is_longest(s.weights, sinks, r)
    }
}

/// The nodes that no edge enters.
pub open spec fn sources(nodes: Set<u64>, edges: Map<(u64, u64), u64>) -> Set<u64> {
    nodes.filter(|n: u64| predecessors(edges, n).is_empty())
}

/// The nodes that no edge leaves.
pub open spec fn sinks(nodes: Set<u64>, edges: Map<(u64, u64), u64>) -> Set<u64> {
    nodes.filter(|n: u64| successors(edges, n).is_empty())
}

/// `r` is what `find_longest_path` gives: for each source a result of the search from
/// it to the sinks, and `r` the greatest of them.
pub open spec fn longest_path_result(nodes: Set<u64>, edges: Map<(u64, u64), u64>, r: u64) -> bool {
    exists|f: Map<u64, u64>| {
        &&& #[trigger] f.dom() == sources(nodes, edges)
        &&& forall|s: u64| #[trigger] f.contains_key(s) ==> search_result(nodes, edges, s, sinks(nodes, edges), f[s])
        &&& forall|s: u64| #[trigger] f.contains_key(s) ==> f[s] <= r
        &&& exists|s: u64| #[trigger] f.contains_key(s) && f[s] == r
    }
}

/// For `k <= n`, `k` edges of weight at most `weight_bound(n)` weigh at most `i64::MAX`.
pub proof fn lemma_weight_bound(k: nat, n: nat)
    requires
        k <= n,
    ensures
        k * weight_bound(n) <= i64::MAX,
        weight_bound(n) >= 0,
{
    let b = weight_bound(n);
    assert(b >= 0) by (nonlinear_arith)
        requires
            b == (i64::MAX as int) / ((n + 1) as int),
    ;
    assert(k * b <= i64::MAX) by (nonlinear_arith)
        requires
            b == (i64::MAX as int) / ((n + 1) as int),
            k <= n,
            b >= 0,
    {
        assert((n + 1) * b <= i64::MAX);
        assert(k * b <= (n + 1) * b);
    }
}

/// The sum of the weights of the edges of `s`.
pub open spec fn weight_sum(edges: Map<(u64, u64), u64>, s: Set<(u64, u64)>) -> int {
    s.fold(0int, |acc: int, e: (u64, u64)| acc + edges[e])
}

/// The edges that leave a node of `p`.
pub open spec fn edges_out_of(edges: Map<(u64, u64), u64>, p: Set<u64>) -> Set<(u64, u64)> {
    edges.dom().filter(|e: (u64, u64)| p.contains(e.0))
}

/// The search cannot overflow an `i64`: every edge weight is within `weight_bound`, or
/// the weights of all the edges sum to at most `i64::MAX`.
pub open spec fn search_weights_fit(edges: Map<(u64, u64), u64>, n: nat) -> bool {
    ||| weights_bounded(edges, n)
    ||| edges.dom().finite() && weight_sum(edges, edges.dom()) <= i64::MAX
}

/// Adding an edge to a set adds its weight to the sum.
pub proof fn lemma_weight_sum_insert(edges: Map<(u64, u64), u64>, s: Set<(u64, u64)>, e: (u64, u64))
    requires
        s.finite(),
        !s.contains(e),
    ensures
        weight_sum(edges, s.insert(e)) == weight_sum(edges, s) + edges[e],
{
    let f = |acc: int, e: (u64, u64)| acc + edges[e];
    assert(vstd::set::fold::is_fun_commutative(f));
    vstd::set::fold::lemma_fold_insert(s, 0int, f, e);
}

/// The sum of no edge is 0.
pub proof fn lemma_weight_sum_empty(edges: Map<(u64, u64), u64>)
    ensures
        weight_sum(edges, Set::empty()) == 0,
{
    let f = |acc: int, e: (u64, u64)| acc + edges[e];
    vstd::set::fold::lemma_fold_empty(0int, f);
}

/// The sum over two sets apart is the sum of the two sums; and a set weighs at least
/// as much as any of its edges, and at least 0.
pub proof fn lemma_weight_sum_union(edges: Map<(u64, u64), u64>, s: Set<(u64, u64)>, t: Set<(u64, u64)>)
    requires
        s.finite(),
        t.finite(),
        s.disjoint(t),
    ensures
        weight_sum(edges, s.union(t)) == weight_sum(edges, s) + weight_sum(edges, t),
        weight_sum(edges, t) >= 0,
        forall|e: (u64, u64)| #[trigger] t.contains(e) ==> edges[e] <= weight_sum(edges, t),
    decreases t.len(),
{
    if t.len() == 0 {
        assert(t =~= Set::empty());
        assert(s.union(t) =~= s);
        lemma_weight_sum_empty(edges);
    } else {
        let a = t.choose();
        let t0 = t.remove(a);
        lemma_weight_sum_union(edges, s, t0);
        assert(t0.insert(a) =~= t);
        assert(s.union(t0).insert(a) =~= s.union(t));
        lemma_weight_sum_insert(edges, t0, a);
        lemma_weight_sum_insert(edges, s.union(t0), a);
    }
}

/// A subset weighs at most as much as the set.
pub proof fn lemma_weight_sum_subset(edges: Map<(u64, u64), u64>, s: Set<(u64, u64)>, t: Set<(u64, u64)>)
    requires
        t.finite(),
        s.subset_of(t),
    ensures
        s.finite(),
        weight_sum(edges, s) <= weight_sum(edges, t),
        weight_sum(edges, s) >= 0,
{
    vstd::set_lib::lemma_len_subset(s, t);
    let d = t.difference(s);
    vstd::set_lib::lemma_len_subset(d, t);
    assert(s.union(d) =~= t);
    lemma_weight_sum_union(edges, s, d);
    lemma_weight_sum_empty(edges);
    lemma_weight_sum_union(edges, Set::empty(), s);
    assert(Set::<(u64, u64)>::empty().union(s) =~= s);
}

/// Taking one more node `c` out of the queue: the edges that leave the nodes taken so
/// far gain those that leave `c`, each weighing at most their sum, and all of them
/// together weigh at most all the edges.
pub proof fn lemma_edges_out_of_insert(edges: Map<(u64, u64), u64>, p: Set<u64>, c: u64)
    requires
        edges.dom().finite(),
        !p.contains(c),
    ensures
        weight_sum(edges, edges_out_of(edges, p.insert(c)))
            == weight_sum(edges, edges_out_of(edges, p)) + weight_sum(edges, edges_out_of(edges, set![c])),
        forall|k: u64| #[trigger] edges.contains_key((c, k)) ==> edges[(c, k)] <= weight_sum(edges, edges_out_of(edges, set![c])),
        weight_sum(edges, edges_out_of(edges, p.insert(c))) <= weight_sum(edges, edges.dom()),
        weight_sum(edges, edges_out_of(edges, p)) >= 0,
        weight_sum(edges, edges_out_of(edges, set![c])) >= 0,
{
    let a = edges_out_of(edges, p);
    let o = edges_out_of(edges, set![c]);
    vstd::set_lib::lemma_len_subset(a, edges.dom());
    vstd::set_lib::lemma_len_subset(o, edges.dom());
    assert(a.union(o) =~= edges_out_of(edges, p.insert(c)));
    lemma_weight_sum_union(edges, a, o);
    lemma_weight_sum_subset(edges, a.union(o), edges.dom());
    lemma_weight_sum_subset(edges, a, edges.dom());
    assert forall|k: u64| #[trigger] edges.contains_key((c, k)) implies edges[(c, k)] <= weight_sum(edges, o) by {
        assert(o.contains((c, k)));
    }
}

/// Under `search_weights_fit`, every edge weight fits in an `i64`.
pub proof fn lemma_weights_fit_i64(edges: Map<(u64, u64), u64>, n: nat)
    requires
        search_weights_fit(edges, n),
    ensures
        forall|e: (u64, u64)| #[trigger] edges.contains_key(e) ==> edges[e] <= i64::MAX,
{
    if weights_bounded(edges, n) {
        lemma_weight_bound(0, n);
        assert((i64::MAX as int) / ((n + 1) as int) <= i64::MAX) by (nonlinear_arith)
            requires
                n >= 0,
        ;
    } else {
        lemma_weight_sum_empty(edges);
        lemma_weight_sum_union(edges, Set::empty(), edges.dom());
    }
}

} // verus!
