use vstd::prelude::*;
use std::collections::HashMap;
use petgraph::graphmap::DiGraphMap;
use priority_queue::PriorityQueue;
use crate::bindings::graph::{
    graph_add_edge, graph_edge_count, graph_edges, graph_neighbors_directed, graph_new, graph_node_count,
    graph_node_list, graph_nodes, graph_out_edges, predecessors, successors,
};
use crate::bindings::queue::{queue_change_priority, queue_items, queue_len, queue_new, queue_pop, queue_push};
use crate::pdg::paths::{
    alt_weight, edges_out_of, initial_queue, initial_weights, is_longest, lemma_edges_out_of_insert, lemma_weights_fit_i64,
    lemma_weight_bound, lemma_weight_sum_empty, longest_path_result, lowers, relax_queue, relax_weights,
    search_after, search_result, search_weights_fit, sinks, sources, valid_pops, weight_bound, weight_sum,
    weights_bounded, Search,
};
use crate::activity;
use crate::callback;
use crate::cuda::allocation::{AddressSpace, Allocation};
use crate::cuda::value::Value;
use crate::cuda::State;
use crate::document::Document;
use crate::pdg::replay::{
    after_configure, after_launch, after_malloc, after_memcpy, after_setup, configure_ok, launch_arg,
    launch_arg_ok, launch_args, launch_args_ok, launch_ok, lemma_launch_args_threads, memcpy_ok,
    memcpy_values, replay, replay_ok, setup_ok, step, step_ok, Replay,
};
use crate::pdg::compute::{Compute, ComputeModel};
use crate::pdg::transfer::{Transfer, TransferModel};
use crate::pdg::shape::{
    built_by_adds, has_edge_into, lemma_search_on_separate_edges, separate_edges_fit, lemma_add_compute_built_by_adds, lemma_add_transfer_built_by_adds, lemma_empty_built_by_adds,
    lemma_longest_path_built_by_adds,
};

verus! {

broadcast use vstd::std_specs::hash::group_hash_axioms;

/// The program dependence graph: values are nodes, and every computation and every
/// transfer is an edge, weighted by its number. Edge number `e` is described by
/// `computes[e]` or `transfers[e]`.
pub struct PDG {
    pub next_id: u64,
    pub value_map: HashMap<u64, Value>,
    pub current_edge_number: u64,
    pub current_node_number: u64,
    pub graph: DiGraphMap<u64, u64>,
    pub computes: HashMap<u64, Compute>,
    pub transfers: HashMap<u64, Transfer>,
}

/// The graph as mathematical values. `known_values` maps nodes to the values they
/// stand for; `next_node` and `next_edge` are the numbers the next edge will use;
/// `next_id` is a counter that no operation changes.
#[verifier::ext_equal]
pub ghost struct PdgModel {
    pub nodes: Set<u64>,
    pub edges: Map<(u64, u64), u64>,
    pub computes: Map<u64, ComputeModel>,
    pub transfers: Map<u64, TransferModel>,
    pub known_values: Map<u64, Value>,
    pub next_node: u64,
    pub next_edge: u64,
    pub next_id: u64,
}

impl View for PDG {
    type V = PdgModel;

    open spec fn view(&self) -> PdgModel {
        PdgModel {
            nodes: graph_nodes(self.graph),
            edges: graph_edges(self.graph),
            computes: Map::new(|k: u64| self.computes@.contains_key(k), |k: u64| self.computes@[k]@),
            transfers: Map::new(|k: u64| self.transfers@.contains_key(k), |k: u64| self.transfers@[k]@),
            known_values: self.value_map@,
            next_node: self.current_node_number,
            next_edge: self.current_edge_number,
            next_id: self.next_id,
        }
    }
}

/// Whether `v` is the value `src` points to: values are the same when created by
/// the same call.
pub open spec fn same_value(v: Value, src: Option<Value>) -> bool {
    match src {
        Some(s) => v.id == s.id,
        None => false,
    }
}

impl PdgModel {
    /// The graph before any edge is added.
    pub open spec fn empty() -> PdgModel {
        PdgModel {
            nodes: Set::empty(),
            edges: Map::empty(),
            computes: Map::empty(),
            transfers: Map::empty(),
            known_values: Map::empty(),
            next_node: 0,
            next_edge: 0,
            next_id: 0,
        }
    }

    /// Whether `key` may be the node an edge from the value `src` starts at: a node
    /// already known to stand for that value, if there is one, else a new node.
    pub open spec fn source_node(self, src: Option<Value>, key: u64) -> bool {
        if exists|k: u64| #[trigger] self.known_values.contains_key(k) && same_value(self.known_values[k], src) {
            self.known_values.contains_key(key) && same_value(self.known_values[key], src)
        } else {
            key == self.next_node
        }
    }

    /// When adding an edge does not panic: the value it starts at is known when some
    /// value is known, and the counters do not overflow.
    pub open spec fn can_add(self, src: Option<Value>) -> bool {
        &&& (self.known_values.len() > 0 ==> src is Some)
        &&& self.next_node + 2 <= u64::MAX
        &&& self.next_edge + 1 <= u64::MAX
    }

    /// Every edge joins nodes below `next_node` and carries its own number below
    /// `next_edge`; the numbers below `next_edge` each name one computation or one
    /// transfer; so there are as many edges as computations and transfers together.
    pub open spec fn well_numbered(self) -> bool {
        &&& self.edges.dom().finite()
        &&& self.computes.dom().finite()
        &&& self.transfers.dom().finite()
        &&& self.edges.dom().len() == self.next_edge
        &&& self.computes.dom().len() + self.transfers.dom().len() == self.next_edge
        &&& forall|e: (u64, u64)| #[trigger] self.edges.contains_key(e)
            ==> e.0 < self.next_node && e.1 < self.next_node && self.edges[e] < self.next_edge
        &&& forall|e1: (u64, u64), e2: (u64, u64)| #[trigger] self.edges.contains_key(e1) && #[trigger] self.edges.contains_key(e2)
            && self.edges[e1] == self.edges[e2] ==> e1 == e2
        &&& forall|n: u64| #[trigger] self.computes.contains_key(n) ==> n < self.next_edge && !self.transfers.contains_key(n)
        &&& forall|n: u64| #[trigger] self.transfers.contains_key(n) ==> n < self.next_edge
        &&& forall|n: u64| n < self.next_edge ==> #[trigger] self.computes.contains_key(n) || #[trigger] self.transfers.contains_key(n)
        &&& forall|n: u64| #[trigger] self.nodes.contains(n) ==> n < self.next_node
        &&& forall|k: u64| #[trigger] self.known_values.contains_key(k) ==> k < self.next_node
    }

    /// The graph with a new edge from `key` to a new node, numbered `next_edge`.
    pub open spec fn with_edge(self, key: u64) -> PdgModel {
        PdgModel {
            nodes: self.nodes.insert(key).insert((self.next_node + 1) as u64),
            edges: self.edges.insert((key, (self.next_node + 1) as u64), self.next_edge),
            next_node: (self.next_node + 2) as u64,
            next_edge: (self.next_edge + 1) as u64,
            ..self
        }
    }

    /// The graph after a computation is added as an edge from `key`.
    pub open spec fn with_compute(self, key: u64, c: ComputeModel) -> PdgModel {
        PdgModel { computes: self.computes.insert(self.next_edge, c), ..self.with_edge(key) }
    }

    /// The graph after a transfer is added as an edge from `key`.
    pub open spec fn with_transfer(self, key: u64, t: TransferModel) -> PdgModel {
        PdgModel { transfers: self.transfers.insert(self.next_edge, t), ..self.with_edge(key) }
    }
}

impl PDG {
    pub fn new() -> (r: PDG)
        ensures
            r@ == PdgModel::empty(),
            built_by_adds(r@),
    {
        let r = PDG {
            next_id: 0,
            value_map: HashMap::new(),
            graph: graph_new(),
            computes: HashMap::new(),
            transfers: HashMap::new(),
            current_edge_number: 0,
            current_node_number: 0,
        };
        proof {
            assert(r@.computes =~= Map::empty());
            assert(r@.transfers =~= Map::empty());
            assert(r@.edges =~= Map::empty());
            lemma_empty_built_by_adds();
        }
        r
    }

    /// The node that an edge from the value `src_ptr` starts at (see `source_node`);
    /// takes one number for a new node.
    fn source_key(&mut self, src_ptr: Option<Value>) -> (key: u64)
        requires
            old(self)@.can_add(src_ptr),
        ensures
            old(self)@.source_node(src_ptr, key),
            final(self)@ == (PdgModel { next_node: (old(self)@.next_node + 1) as u64, ..old(self)@ }),
            final(self).graph == old(self).graph,
            final(self).computes == old(self).computes,
            final(self).transfers == old(self).transfers,
    {
        let ghost m = self.value_map@;
        let mut current_key = self.current_node_number;
        self.current_node_number = self.current_node_number + 1;
        let ghost fresh = current_key;
        let ghost mut found = false;
        let ghost items = vstd::std_specs::iter::IteratorSpec::remaining(
            &vstd::std_specs::hash::spec_hash_map_iter(&self.value_map),
        );
        for kv in it: self.value_map.iter()
            invariant
                m == self.value_map@,
                it.seq() == items,
                m.len() > 0 ==> src_ptr is Some,
                found ==> m.contains_key(current_key) && same_value(m[current_key], src_ptr),
                !found ==> current_key == fresh,
                !found ==> forall|j: int| 0 <= j < it.index() ==> !same_value(*(#[trigger] it.seq()[j]).1, src_ptr),
        {
            let (key, value) = kv;
            proof {
                assert(m.contains_key(*key));
            }
            if *value == src_ptr.unwrap() {
                current_key = *key;
                proof {
                    found = true;
                }
            }
        }
        proof {
            if !found {
                assert forall|k: u64| #[trigger] m.contains_key(k) implies !same_value(m[k], src_ptr) by {
                    assert(items.contains((&k, &m[k])));
                }
            }
        }
        current_key
    }

    /// Adds a computation as an edge from the node of the value it read (`src_ptr`) to
    /// a new node for the value it wrote.
    pub fn add_compute(&mut self, c: Compute, src_ptr: Option<Value>, dst_ptr: Option<Value>)
        requires
            old(self)@.can_add(src_ptr),
        ensures
            exists|key: u64| #[trigger] old(self)@.source_node(src_ptr, key)
                && final(self)@ == old(self)@.with_compute(key, c@),
            built_by_adds(old(self)@) ==> built_by_adds(final(self)@)
                && final(self)@ == old(self)@.with_compute(old(self)@.next_node, c@),
    {
        let ghost c_model = c@;
        let key = self.source_key(src_ptr);
        let ghost before = self@;
        let edge = self.current_edge_number;
        graph_add_edge(&mut self.graph, key, self.current_node_number, edge);
        self.computes.insert(edge, c);
        self.current_node_number = self.current_node_number + 1;
        self.current_edge_number = self.current_edge_number + 1;
        proof {
            assert(self@.computes =~= old(self)@.computes.insert(old(self)@.next_edge, c_model));
            assert(self@ =~= old(self)@.with_compute(key, c_model));
            if built_by_adds(old(self)@) {
                lemma_add_compute_built_by_adds(old(self)@, src_ptr, key, c_model);
            }
        }
    }

    /// Adds a transfer as an edge from the node of the value copied (`src_ptr`) to a
    /// new node for the value written.
    pub fn add_transfer(&mut self, t: Transfer, src_ptr: Option<Value>, dst_ptr: Option<Value>)
        requires
            old(self)@.can_add(src_ptr),
        ensures
            exists|key: u64| #[trigger] old(self)@.source_node(src_ptr, key)
                && final(self)@ == old(self)@.with_transfer(key, t@),
            built_by_adds(old(self)@) ==> built_by_adds(final(self)@)
                && final(self)@ == old(self)@.with_transfer(old(self)@.next_node, t@),
    {
        let ghost t_model = t@;
        let key = self.source_key(src_ptr);
        let edge = self.current_edge_number;
        graph_add_edge(&mut self.graph, key, self.current_node_number, edge);
        self.transfers.insert(edge, t);
        self.current_node_number = self.current_node_number + 1;
        self.current_edge_number = self.current_edge_number + 1;
        proof {
            assert(self@.transfers =~= old(self)@.transfers.insert(old(self)@.next_edge, t_model));
            assert(self@ =~= old(self)@.with_transfer(key, t_model));
            if built_by_adds(old(self)@) {
                lemma_add_transfer_built_by_adds(old(self)@, src_ptr, key, t_model);
            }
        }
    }

    /// The greatest negated weight that a search from `start_node` over a max-priority
    /// queue of negated weights gives a node of `sinks` (see `search_result`).
    fn longest_path(&mut self, start_node: u64, sinks: &Vec<u64>) -> (r: u64)
        requires
            search_weights_fit(old(self)@.edges, old(self)@.nodes.len()) || (separate_edges_fit(old(self)@.nodes, old(self)@.edges)
                && old(self)@.nodes.contains(start_node) && predecessors(old(self)@.edges, start_node).is_empty()),
        ensures
            final(self)@ == old(self)@,
            search_result(old(self)@.nodes, old(self)@.edges, start_node, sinks@.to_set(), r),
    {
        let ghost nodes = self@.nodes;
        let ghost edges = self@.edges;
        let mut hash_weight: HashMap<u64, i64> = HashMap::new();
        let mut pq = queue_new();
        let node_list = graph_node_list(&self.graph);
        proof {
            node_list@.unique_seq_to_set();
        }
        let ghost n = nodes.len();
        let ghost b = weight_bound(n);
        let ghost case_a = weights_bounded(edges, n);
        let ghost case_c = !search_weights_fit(edges, n);
        let ghost mut lb: int = if case_c { i64::MAX as int } else { 0 };
        let ghost mut taken: Set<u64> = Set::empty();
        let mut i: usize = 0;
        while i < node_list.len()
            invariant
                i <= node_list.len(),
                node_list@.no_duplicates(),
                forall|k: u64| #[trigger] queue_items(pq).contains_key(k) <==> exists|j: int| 0 <= j < i && node_list@[j] == k,
                forall|k: u64| #[trigger] queue_items(pq).contains_key(k) ==> queue_items(pq)[k] == i64::MAX,
            decreases node_list.len() - i,
        {
            queue_push(&mut pq, node_list[i], i64::MAX);
            i = i + 1;
        }
        queue_change_priority(&mut pq, start_node, 0);
        hash_weight.insert(start_node, 0);
        let ghost mut pops: Seq<(u64, i64)> = Seq::empty();
        proof {
            assert forall|k: u64| #[trigger] queue_items(pq).contains_key(k) <==> nodes.contains(k) by {
                if nodes.contains(k) {
                    assert(node_list@.to_set().contains(k));
                }
            }
            assert(queue_items(pq) =~= initial_queue(nodes, start_node));
            assert(hash_weight@ =~= initial_weights(start_node));
            assert(queue_items(pq).dom() =~= nodes);
            lemma_weight_bound(0, n);
            if !case_a && !case_c {
                assert(edges_out_of(edges, taken) =~= Set::empty());
                lemma_weight_sum_empty(edges);
            }
        }
        while queue_len(&pq) > 0
            invariant
                nodes == self@.nodes,
                edges == self@.edges,
                n == nodes.len(),
                b == weight_bound(n),
                b >= 0,
                case_c == !search_weights_fit(edges, n),
                case_a == weights_bounded(edges, n),
                case_c ==> separate_edges_fit(nodes, edges) && nodes.contains(start_node)
                    && predecessors(edges, start_node).is_empty() && lb == i64::MAX,
                0 <= lb <= i64::MAX,
                case_a ==> lb <= pops.len() * b,
                !case_a && !case_c ==> edges.dom().finite() && weight_sum(edges, edges.dom()) <= i64::MAX
                    && lb <= weight_sum(edges, edges_out_of(edges, taken)),
                forall|x: u64| #[trigger] taken.contains(x) ==> !queue_items(pq).contains_key(x),
                valid_pops(nodes, edges, start_node, pops),
                (Search { queue: queue_items(pq), weights: hash_weight@ }) == search_after(nodes, edges, start_node, pops),
                queue_items(pq).dom().finite(),
                pops.len() + queue_items(pq).dom().len() == n,
                forall|k: u64| #[trigger] queue_items(pq).contains_key(k) ==> -lb <= queue_items(pq)[k],
                forall|k: u64| #[trigger] hash_weight@.contains_key(k) ==> -lb <= hash_weight@[k],
            decreases queue_items(pq).dom().len(),
        {
            let ghost q0 = queue_items(pq);
            let ghost hw0 = hash_weight@;
            let popped = queue_pop(&mut pq);
            proof {
                if popped is None {
                    assert(q0.dom().len() == 0);
                }
            }
            let (current_node, current_weight) = popped.unwrap();
            let ghost k = pops.len() + 1;
            let ghost inc: int = if case_a {
                b
            } else if case_c {
                0
            } else {
                weight_sum(edges, edges_out_of(edges, set![current_node]))
            };
            proof {
                assert(q0.dom().remove(current_node) =~= queue_items(pq).dom());
                assert(!taken.contains(current_node));
                if case_a {
                    lemma_weight_bound(k as nat, n);
                    assert(k * b == (k - 1) * b + b) by (nonlinear_arith);
                    lemma_weights_fit_i64(edges, n);
                } else if case_c {
                    lemma_search_on_separate_edges(nodes, edges, start_node, pops);
                    assert forall|x: u64| #[trigger] edges.contains_key((current_node, x)) implies current_weight >= 0 by {
                        if has_edge_into(edges, current_node) {
                            let a = choose|a: u64| #[trigger] edges.contains_key((a, current_node));
                            assert(edges.contains_key((a, current_node)));
                        }
                    }
                } else {
                    lemma_edges_out_of_insert(edges, taken, current_node);
                    lemma_weights_fit_i64(edges, n);
                }
            }
            let ghost q1 = queue_items(pq);
            let neighbor_edges = graph_out_edges(&self.graph, current_node);
            let ghost targets = neighbor_edges@.map_values(|e: (u64, u64)| e.0);
            let mut j: usize = 0;
            while j < neighbor_edges.len()
                invariant
                    edges == self@.edges,
                    0 <= lb,
                    0 <= inc,
                    lb + inc <= i64::MAX,
                    forall|x: u64| #[trigger] edges.contains_key((current_node, x))
                        ==> current_weight - edges[(current_node, x)] >= -(lb + inc) && edges[(current_node, x)] <= i64::MAX,
                    targets == neighbor_edges@.map_values(|e: (u64, u64)| e.0),
                    targets.no_duplicates(),
                    forall|x: int| 0 <= x < neighbor_edges@.len() ==> edges[(current_node, (#[trigger] neighbor_edges@[x]).0)] == neighbor_edges@[x].1,
                    targets.to_set() == successors(edges, current_node),
                    j <= neighbor_edges.len(),
                    queue_items(pq) == relax_queue(q1, hw0, edges, current_node, current_weight, targets.take(j as int).to_set()),
                    hash_weight@ == relax_weights(hw0, edges, current_node, current_weight, targets.take(j as int).to_set()),
                    forall|x: u64| #[trigger] queue_items(pq).contains_key(x) ==> -(lb + inc) <= queue_items(pq)[x],
                    forall|x: u64| #[trigger] hash_weight@.contains_key(x) ==> -(lb + inc) <= hash_weight@[x],
                decreases neighbor_edges.len() - j,
            {
                let (dst_node, weight) = neighbor_edges[j];
                let ghost t = targets.take(j as int).to_set();
                proof {
                    assert(targets[j as int] == dst_node);
                    assert(targets.take(j + 1) =~= targets.take(j as int).push(dst_node));
                    targets.take(j as int).lemma_push_to_set_commute(dst_node);
                    assert(targets.take(j + 1).to_set() =~= t.insert(dst_node));
                    assert(!t.contains(dst_node)) by {
                        if t.contains(dst_node) {
                            let x = choose|x: int| 0 <= x < j && targets.take(j as int)[x] == dst_node;
                            assert(targets[x] == targets[j as int]);
                        }
                    }
                    assert(successors(edges, current_node).contains(dst_node));
                    assert(edges.contains_key((current_node, dst_node)));
                }
                let alt: i64 = current_weight - (weight as i64);
                let ghost q_before = queue_items(pq);
                let ghost hw_before = hash_weight@;
                let lower = match hash_weight.get(&dst_node) {
                    Some(s) => alt < *s,
                    None => true,
                };
                if lower {
                    queue_change_priority(&mut pq, dst_node, alt);
                    hash_weight.insert(dst_node, alt);
                }
                proof {
                    let t2 = t.insert(dst_node);
                    assert(hw_before.contains_key(dst_node) <==> hw0.contains_key(dst_node));
                    assert(hw_before.contains_key(dst_node) ==> hw_before[dst_node] == hw0[dst_node]);
                    assert(lower == lowers(hw0, edges, current_node, current_weight, t2, dst_node));
                    assert(queue_items(pq) =~= relax_queue(q1, hw0, edges, current_node, current_weight, t2));
                    assert(hash_weight@ =~= relax_weights(hw0, edges, current_node, current_weight, t2));
                }
                j = j + 1;
            }
            proof {
                assert(targets.take(targets.len() as int) =~= targets);
                assert(queue_items(pq) =~= relax_queue(q0.remove(current_node), hw0, edges, current_node, current_weight, successors(edges, current_node)));
                let new_pops = pops.push((current_node, current_weight));
                assert(new_pops.drop_last() =~= pops);
                pops = new_pops;
                assert(queue_items(pq).dom() =~= q1.dom());
                if !case_a && !case_c {
                    lemma_edges_out_of_insert(edges, taken, current_node);
                }
                lb = lb + inc;
                taken = taken.insert(current_node);
            }
        }
        let ghost final_weights = hash_weight@;
        let ghost sink_set = sinks@.to_set();
        let mut max_path: i64 = 0;
        let ghost mut witness: Option<u64> = None;
        let ghost items = vstd::std_specs::iter::IteratorSpec::remaining(
            &vstd::std_specs::hash::spec_hash_map_iter(&hash_weight),
        );
        for kv in it: hash_weight.iter()
            invariant
                final_weights == hash_weight@,
                sink_set == sinks@.to_set(),
                it.seq() == items,
                0 <= lb <= i64::MAX,
                forall|x: u64| #[trigger] final_weights.contains_key(x) ==> -lb <= final_weights[x],
                0 <= max_path,
                forall|x: int| 0 <= x < it.index() ==> sink_set.contains(*(#[trigger] it.seq()[x]).0) ==> -*it.seq()[x].1 <= max_path,
                match witness {
                    Some(w) => final_weights.contains_key(w) && sink_set.contains(w) && -final_weights[w] == max_path,
                    None => max_path == 0,
                },
        {
            let (key, v) = kv;
            proof {
                assert(final_weights.contains_key(*key));
                assert(final_weights[*key] == *v);
                assert(sink_set.contains(*key) == sinks@.contains(*key));
            }
            if contains_node(sinks, *key) {
                if -*v > max_path {
                    max_path = -*v;
                    proof {
                        witness = Some(*key);
                    }
                }
            }
        }
        proof {
            assert forall|x: u64| #[trigger] final_weights.contains_key(x) && sink_set.contains(x) implies -final_weights[x] <= max_path by {
                assert(items.contains((&x, &final_weights[x])));
            }
            assert(is_longest(final_weights, sink_set, max_path as u64));
            assert(valid_pops(nodes, edges, start_node, pops));
        }
        max_path as u64
    }

    /// The greatest result of the searches from each source to the sinks (see
    /// `longest_path_result`). A source is a node no edge enters, a sink one no edge
    /// leaves; the graph must have a source. This is the longest path on graphs whose
    /// edges are separate, such as those built by `add_compute`, `add_transfer` and
    /// `from_document`, but not in general: the search takes every node not yet
    /// reached, at priority `i64::MAX`, before the source, so on the chain 0 -> 1 -> 2
    /// it gives 0.
    pub fn find_longest_path(&mut self) -> (r: u64)
        requires
            search_weights_fit(old(self)@.edges, old(self)@.nodes.len()) || separate_edges_fit(old(self)@.nodes, old(self)@.edges),
            !sources(old(self)@.nodes, old(self)@.edges).is_empty(),
        ensures
            final(self)@ == old(self)@,
            longest_path_result(old(self)@.nodes, old(self)@.edges, r),
            built_by_adds(old(self)@) ==> r + 1 == old(self)@.next_edge,
    {
        let ghost nodes = self@.nodes;
        let ghost edges = self@.edges;
        let ghost orig = self@;
        let mut sources_found: Vec<u64> = Vec::new();
        let mut sinks_found: Vec<u64> = Vec::new();
        let mut longest_path: Vec<u64> = Vec::new();
        let node_list = graph_node_list(&self.graph);
        let mut i: usize = 0;
        while i < node_list.len()
            invariant
                nodes == self@.nodes,
                edges == self@.edges,
                orig == self@,
                node_list@.to_set() == nodes,
                node_list@.no_duplicates(),
                i <= node_list.len(),
                sources_found@.no_duplicates(),
                sinks_found@.no_duplicates(),
                forall|x: u64| #[trigger] sources_found@.contains(x) <==> node_list@.take(i as int).contains(x)
                    && predecessors(edges, x).is_empty(),
                forall|x: u64| #[trigger] sinks_found@.contains(x) <==> node_list@.take(i as int).contains(x)
                    && successors(edges, x).is_empty(),
            decreases node_list.len() - i,
        {
            let node = node_list[i];
            proof {
                assert(node_list@.take(i + 1) =~= node_list@.take(i as int).push(node));
                assert(!node_list@.take(i as int).contains(node)) by {
                    if node_list@.take(i as int).contains(node) {
                        let x = choose|x: int| 0 <= x < i && node_list@.take(i as int)[x] == node;
                        assert(node_list@[x] == node_list@[i as int]);
                    }
                }
                assert(!sources_found@.contains(node));
                assert(!sinks_found@.contains(node));
            }
            let ghost sources_before = sources_found@;
            let ghost sinks_before = sinks_found@;
            let incoming = graph_neighbors_directed(&self.graph, node, true);
            proof {
                if incoming.len() > 0 {
                    assert(incoming@.to_set().contains(incoming@[0]));
                } else {
                    assert(predecessors(edges, node) =~= Set::<u64>::empty());
                }
            }
            if incoming.len() == 0 {
                sources_found.push(node);
            }
            let outgoing = graph_neighbors_directed(&self.graph, node, false);
            proof {
                if outgoing.len() > 0 {
                    assert(outgoing@.to_set().contains(outgoing@[0]));
                } else {
                    assert(successors(edges, node) =~= Set::<u64>::empty());
                }
            }
            if outgoing.len() == 0 {
                sinks_found.push(node);
            }
            proof {
                assert forall|a: int, c: int| 0 <= a < c < sources_found@.len() implies sources_found@[a] != sources_found@[c] by {
                    if c == sources_before.len() {
                        assert(sources_before.contains(sources_found@[a]));
                    }
                }
                assert forall|a: int, c: int| 0 <= a < c < sinks_found@.len() implies sinks_found@[a] != sinks_found@[c] by {
                    if c == sinks_before.len() {
                        assert(sinks_before.contains(sinks_found@[a]));
                    }
                }
                broadcast use vstd::seq_lib::group_seq_properties;
                assert(node_list@.take(i + 1) =~= node_list@.take(i as int).push(node));
                assert(predecessors(edges, node).is_empty() <==> incoming.len() == 0);
                assert(successors(edges, node).is_empty() <==> outgoing.len() == 0);
                assert(sources_found@ == if incoming.len() == 0 { sources_before.push(node) } else { sources_before });
                assert(sinks_found@ == if outgoing.len() == 0 { sinks_before.push(node) } else { sinks_before });
            }
            i = i + 1;
        }
        proof {
            assert(node_list@.take(node_list.len() as int) =~= node_list@);
            assert(sources_found@.to_set() =~= sources(nodes, edges));
            assert(sinks_found@.to_set() =~= sinks(nodes, edges));
        }
        let ghost mut f: Map<u64, u64> = Map::empty();
        let mut k: usize = 0;
        while k < sources_found.len()
            invariant
                nodes == self@.nodes,
                edges == self@.edges,
                orig == self@,
                search_weights_fit(edges, nodes.len()) || separate_edges_fit(nodes, edges),
                sinks_found@.to_set() == sinks(nodes, edges),
                sources_found@.to_set() == sources(nodes, edges),
                sources_found@.no_duplicates(),
                k <= sources_found.len(),
                longest_path@.len() == k,
                f.dom() == sources_found@.take(k as int).to_set(),
                forall|x: int| 0 <= x < k ==> f[sources_found@[x]] == #[trigger] longest_path@[x],
                forall|s: u64| #[trigger] f.contains_key(s) ==> search_result(nodes, edges, s, sinks(nodes, edges), f[s]),
            decreases sources_found.len() - k,
        {
            let source = sources_found[k];
            proof {
                assert(sources_found@.to_set().contains(source));
            }
            let path_length = self.longest_path(source, &sinks_found);
            longest_path.push(path_length);
            proof {
                assert(sources_found@.take(k + 1) =~= sources_found@.take(k as int).push(source));
                sources_found@.take(k as int).lemma_push_to_set_commute(source);
                assert(!f.contains_key(source)) by {
                    if sources_found@.take(k as int).contains(source) {
                        let x = choose|x: int| 0 <= x < k && sources_found@.take(k as int)[x] == source;
                        assert(sources_found@[x] == sources_found@[k as int]);
                    }
                }
                f = f.insert(source, path_length);
                assert(f.dom() =~= sources_found@.take(k + 1).to_set());
            }
            k = k + 1;
        }
        proof {
            assert(sources_found@.take(sources_found.len() as int) =~= sources_found@);
            assert(f.dom() =~= sources(nodes, edges));
            let s0 = sources(nodes, edges).choose();
            assert(sources(nodes, edges).contains(s0));
            assert(sources_found@.contains(s0));
        }
        let mut best = longest_path[0];
        let mut m: usize = 1;
        while m < longest_path.len()
            invariant
                1 <= m <= longest_path.len(),
                longest_path@.len() == sources_found@.len(),
                forall|x: int| 0 <= x < m ==> #[trigger] longest_path@[x] <= best,
                exists|x: int| 0 <= x < m && #[trigger] longest_path@[x] == best,
            decreases longest_path.len() - m,
        {
            if longest_path[m] > best {
                best = longest_path[m];
            }
            m = m + 1;
        }
        proof {
            assert forall|s: u64| #[trigger] f.contains_key(s) implies f[s] <= best by {
                let x = choose|x: int| 0 <= x < sources_found@.len() && sources_found@[x] == s;
                assert(longest_path@[x] <= best);
            }
            let x = choose|x: int| 0 <= x < longest_path@.len() && #[trigger] longest_path@[x] == best;
            assert(f.contains_key(sources_found@[x]));
            assert(f[sources_found@[x]] == best);
            assert(longest_path_result(nodes, edges, best));
            if built_by_adds(orig) {
                lemma_longest_path_built_by_adds(orig, best);
            }
        }
        best
    }

    /// Whether an edge from the value `src` can be added (see `can_add`).
    pub fn edge_fits(&self, src: Option<Value>) -> (r: bool)
        ensures
            r == self@.can_add(src),
    {
        (self.value_map.len() == 0 || src.is_some()) && self.current_node_number <= u64::MAX - 2
            && self.current_edge_number <= u64::MAX - 1
    }

    /// The number of nodes.
    pub fn num_nodes(&mut self) -> (r: usize)
        ensures
            final(self)@ == old(self)@,
            old(self)@.nodes.finite(),
            r == old(self)@.nodes.len(),
    {
        graph_node_count(&self.graph)
    }

    /// The number of edges.
    pub fn num_edges(&mut self) -> (r: usize)
        ensures
            final(self)@ == old(self)@,
            old(self)@.edges.dom().finite(),
            r == old(self)@.edges.dom().len(),
    {
        graph_edge_count(&self.graph)
    }
}


/// Whether `x` is among the nodes of `v`.
fn contains_node(v: &Vec<u64>, x: u64) -> (r: bool)
    ensures
        r == v@.contains(x),
{
    let mut i: usize = 0;
    while i < v.len()
        invariant
            i <= v.len(),
            forall|j: int| 0 <= j < i ==> v@[j] != x,
        decreases v.len() - i,
    {
        if v[i] == x {
            return true;
        }
        i = i + 1;
    }
    false
}

/// `cudaMalloc`: a fresh allocation at `cm.ptr`, unless one is already there.
fn handle_cuda_malloc(cm: &callback::CudaMallocS, state: State) -> (r: State)
    requires
        state@.wf(),
    ensures
        r@ == after_malloc(state@, *cm),
        r@.wf(),
{
    let mut state = state;
    let allocation = Allocation::new(0, cm.ptr, cm.size, AddressSpace::UVA);
    state.add_allocation(allocation);
    state
}

/// `cudaConfigureCall`: the thread gets a configured launch; `None` when it has one.
fn handle_cuda_configure_call(cc: &callback::CudaConfigureCallS, state: State) -> (r: Option<State>)
    requires
        state@.wf(),
    ensures
        r is Some <==> configure_ok(state@, *cc),
        r matches Some(s) ==> s@ == after_configure(state@, *cc) && s@.wf(),
{
    let ghost before = state@;
    let tid = cc.calling_tid;
    if state.thread_configured(tid) {
        return None;
    }
    let mut state = state;
    let mut thread = state.take_thread(tid);
    thread.configured_call.start();
    state.put_thread(tid, thread);
    proof {
        assert(state@.threads =~= after_configure(before, *cc).threads);
        assert(state@ =~= after_configure(before, *cc));
    }
    Some(state)
}

/// `cudaSetupArgument`: the argument is added to the thread's launch; `None` when the
/// thread has no configured launch.
fn handle_cuda_setup_argument(graph: &mut PDG, csa: &callback::CudaSetupArgumentS, state: State) -> (r: Option<State>)
    requires
        state@.wf(),
    ensures
        r is Some <==> setup_ok(state@, *csa),
        r matches Some(s) ==> s@ == after_setup(state@, *csa) && s@.wf(),
        final(graph)@ == old(graph)@,
{
    let ghost before = state@;
    let tid = csa.calling_tid;
    if !state.thread_configured(tid) {
        return None;
    }
    let mut state = state;
    let mut thread = state.take_thread(tid);
    thread.configured_call.add_arg(csa.arg);
    state.put_thread(tid, thread);
    proof {
        assert(state@.threads =~= after_setup(before, *csa).threads);
        assert(state@ =~= after_setup(before, *csa));
    }
    Some(state)
}

/// `cudaMemcpy`: new values where the copy writes, and a transfer edge; `None` when
/// handling it would panic (see `memcpy_ok`).
fn handle_cuda_memcpy(graph: &mut PDG, cm: &callback::CudaMemcpyS, state: State) -> (r: Option<State>)
    requires
        (Replay { state: state@, graph: old(graph)@ }).inv(),
    ensures
        r is Some <==> memcpy_ok(Replay { state: state@, graph: old(graph)@ }, *cm),
        r matches Some(s) ==> (Replay { state: s@, graph: final(graph)@ }) == after_memcpy(Replay { state: state@, graph: old(graph)@ }, *cm)
            && (Replay { state: s@, graph: final(graph)@ }).inv(),
{
    let ghost before = state@;
    let ghost r0 = Replay { state: state@, graph: graph@ };
    if cm.wall_start > cm.wall_end || cm.cuda_memcpy_kind < 1 || cm.cuda_memcpy_kind > 3 {
        return None;
    }
    let mut state = state;
    let duration = cm.wall_end - cm.wall_start;

    // The name of the copy direction.
    let memcpy_kind = if cm.cuda_memcpy_kind == 0 {
        "cudaMemcpyHostToHost".to_owned()
    } else if cm.cuda_memcpy_kind == 1 {
        "cudaMemcpyHostToDevice".to_owned()
    } else if cm.cuda_memcpy_kind == 2 {
        "cudaMemcpyDeviceToHost".to_owned()
    } else {
        "cudaMemcpyDeviceToDevice".to_owned()
    };

    let (src_rc, dst_rc) = if cm.cuda_memcpy_kind == 1 {
        // The source is host memory; the destination gets a new value on the device.
        if !state.update_fits(cm.dst, cm.count) {
            proof {
                assert(before.add_host(cm.src).allocations == before.allocations);
            }
            return None;
        }
        let src_rc = state.add_host_pointer(cm.src);
        let dst_rc = state.update_allocations(cm.id, cm.dst, cm.count);
        (src_rc, dst_rc)
    } else if cm.cuda_memcpy_kind == 2 {
        if !state.update_fits(cm.src, cm.count) {
            proof {
                assert(before.add_host(cm.dst).allocations == before.allocations);
            }
            return None;
        }
        let dst_rc = state.add_host_pointer(cm.dst);
        let src_rc = state.update_allocations(cm.id, cm.src, cm.count);
        (src_rc, dst_rc)
    } else {
        // Device to device: both sides get new values, the destination first.
        if !state.update_fits(cm.dst, cm.count) {
            return None;
        }
        let dst_rc = state.update_allocations(cm.id, cm.dst, cm.count);
        if !state.update_fits(cm.src, cm.count) {
            return None;
        }
        let src_rc = state.update_allocations(cm.id, cm.src, cm.count);
        (src_rc, dst_rc)
    };
    proof {
        assert(state@ == memcpy_values(before, *cm).0);
        assert(src_rc == memcpy_values(before, *cm).1);
    }
    if !graph.edge_fits(src_rc) {
        return None;
    }

    let transfer = Transfer {
        correlation_id: cm.correlation_id,
        cuda_device_id: 50,
        kind: memcpy_kind,
        start: cm.wall_start,
        dur: duration,
        stream_id: 1,
    };
    graph.add_transfer(transfer, src_rc, dst_rc);
    Some(state)
}

/// `cudaLaunch`: each argument's value is rewritten, with a compute edge for each
/// that has one, and the launch configuration is closed; `None` when handling it
/// would panic (see `launch_ok`).
fn handle_cuda_launch(graph: &mut PDG, csa: &callback::CudaLaunchS, state: State) -> (r: Option<State>)
    requires
        (Replay { state: state@, graph: old(graph)@ }).inv(),
    ensures
        r is Some <==> launch_ok(Replay { state: state@, graph: old(graph)@ }, *csa),
        r matches Some(s) ==> (Replay { state: s@, graph: final(graph)@ }) == after_launch(Replay { state: state@, graph: old(graph)@ }, *csa)
            && (Replay { state: s@, graph: final(graph)@ }).inv(),
{
    let ghost start = Replay { state: state@, graph: graph@ };
    let tid = csa.calling_tid;
    if !state.has_thread(tid) || !state.thread_configured(tid) {
        return None;
    }
    let mut state = state;
    let args = state.thread_args(tid);
    let ghost all = args@;
    let mut j: usize = 0;
    let mut failed = false;
    while j < args.len() && !failed
        invariant
            start.inv(),
            tid == csa.calling_tid,
            all == args@,
            all == start.state.threads[tid].args,
            start.state.threads.contains_key(tid),
            start.state.threads[tid].valid,
            j <= args.len(),
            !failed ==> launch_args_ok(start, *csa, all.take(j as int)),
            !failed ==> (Replay { state: state@, graph: graph@ }) == launch_args(start, *csa, all.take(j as int)),
            !failed ==> (Replay { state: state@, graph: graph@ }).inv(),
            failed ==> !launch_args_ok(start, *csa, all),
        decreases args.len() - j,
    {
        let arg = args[j];
        proof {
            assert(all.take(j + 1).drop_last() =~= all.take(j as int));
        }
        if !state.find_fits(arg) {
            proof {
                lemma_launch_args_fail(start, *csa, all, j as int);
            }
            failed = true;
        } else {
            let val_option = state.find_argument_values(arg);
            match val_option {
                Some(val_option) => {
                    let (original_val, new_val) = val_option;
                    if csa.wall_start > csa.wall_end || !graph.edge_fits(Some(original_val)) {
                        proof {
                            lemma_launch_args_fail(start, *csa, all, j as int);
                        }
                        failed = true;
                    } else {
                        let temp_duration = csa.wall_end - csa.wall_start;
                        let comp = Compute {
                            completed: 1,
                            correlation_id: csa.correlation_id,
                            cuda_device_id: 1,
                            duration: temp_duration,
                            kind: "fix".to_owned(),
                            name: csa.symbol_name.clone(),
                            start: csa.wall_start,
                            stream_id: 1,
                        };
                        graph.add_compute(comp, Some(original_val), Some(new_val));
                    }
                },
                None => {},
            }
        }
        j = j + 1;
    }
    if failed {
        return None;
    }
    proof {
        assert(all.take(all.len() as int) =~= all);
        lemma_launch_args_threads(start, *csa, all);
    }
    let mut thread = state.take_thread(tid);
    thread.configured_call.finish();
    state.put_thread(tid, thread);
    proof {
        let p = launch_args(start, *csa, all);
        assert(state@.threads =~= after_launch(start, *csa).state.threads);
        assert(state@ =~= after_launch(start, *csa).state);
    }
    Some(state)
}

/// When the argument at position `j` fails, the launch fails.
proof fn lemma_launch_args_fail(r: Replay, cl: callback::CudaLaunchS, args: Seq<u64>, j: int)
    requires
        0 <= j < args.len(),
        !launch_arg_ok(launch_args(r, cl, args.take(j)), cl, args[j]),
    ensures
        !launch_args_ok(r, cl, args),
{
    assert(args.take(j + 1).drop_last() =~= args.take(j));
    assert(args.take(j + 1).last() == args[j]);
    if launch_args_ok(r, cl, args) {
        lemma_launch_args_ok_prefix(r, cl, args, j + 1);
    }
}

/// The arguments before position `n` are handled without a panic when all are.
proof fn lemma_launch_args_ok_prefix(r: Replay, cl: callback::CudaLaunchS, args: Seq<u64>, n: int)
    requires
        launch_args_ok(r, cl, args),
        0 <= n <= args.len(),
    ensures
        launch_args_ok(r, cl, args.take(n)),
    decreases args.len(),
{
    if n < args.len() {
        assert(args.drop_last().take(n) =~= args.take(n));
        lemma_launch_args_ok_prefix(r, cl, args.drop_last(), n);
    } else {
        assert(args.take(n) =~= args);
    }
}

/// A memory copy reported by the activity API changes nothing yet.
fn handle_memcpy_activity(graph: &mut PDG, cm: &activity::MemcpyS, state: State) -> (r: State)
    ensures
        r@ == state@,
        final(graph)@ == old(graph)@,
{
    state
}

/// Builds the dependence graph of a trace, or gives `None` where building it panics:
/// the runtime calls are replayed in order (allocations, launch configuration and
/// arguments, copies, launches), then the activities; a trace with a cuDNN call, whose
/// handling is not written, gives `None`.
pub fn try_from_document(doc: &Document) -> (r: Option<PDG>)
    ensures
        r is Some <==> replay_ok(doc.apis@) && doc.cudnn_calls@.len() == 0,
        r matches Some(g) ==> g@ == replay(doc.apis@).graph,
{
    let mut state = State::new();
    let mut pdg = PDG::new();
    let apis = doc.apis();
    let ghost all = apis@;
    let mut i: usize = 0;
    while i < apis.len()
        invariant
            all == apis@,
            all == doc.apis@,
            replay_ok(all.take(i as int)),
            i <= apis.len(),
            (Replay { state: state@, graph: pdg@ }) == replay(all.take(i as int)),
            (Replay { state: state@, graph: pdg@ }).inv(),
        decreases apis.len() - i,
    {
        proof {
            assert(all.take(i + 1).drop_last() =~= all.take(i as int));
            assert(all.take(i + 1).last() == all[i as int]);
        }
        let next = match &apis[i] {
            callback::Record::CudaMalloc(m) => Some(handle_cuda_malloc(m, state)),
            callback::Record::CudaConfigureCall(cc) => handle_cuda_configure_call(cc, state),
            callback::Record::CudaSetupArgument(sa) => handle_cuda_setup_argument(&mut pdg, sa, state),
            callback::Record::CudaMemcpy(m) => handle_cuda_memcpy(&mut pdg, m, state),
            callback::Record::CudaLaunch(cl) => handle_cuda_launch(&mut pdg, cl, state),
        };
        match next {
            Some(s) => {
                state = s;
            },
            None => {
                proof {
                    if replay_ok(all) {
                        lemma_replay_ok_prefix(all, i + 1);
                    }
                }
                return None;
            },
        }
        i = i + 1;
    }
    proof {
        assert(all.take(all.len() as int) =~= all);
    }
    let activities = doc.activities();
    let mut k: usize = 0;
    while k < activities.len()
        invariant
            pdg@ == replay(all).graph,
            k <= activities.len(),
        decreases activities.len() - k,
    {
        match &activities[k] {
            activity::Record::Kernel3(m) => {},
            activity::Record::Memcpy(m) => {
                state = handle_memcpy_activity(&mut pdg, m, state);
            },
        }
        k = k + 1;
    }
    if doc.cudnn_calls().len() > 0 {
        return None;
    }
    Some(pdg)
}

/// Builds the dependence graph of a trace on which building it does not panic (see
/// `try_from_document`).
pub fn from_document(doc: &Document) -> (r: PDG)
    requires
        replay_ok(doc.apis@),
        doc.cudnn_calls@.len() == 0,
    ensures
        r@ == replay(doc.apis@).graph,
{
    match try_from_document(doc) {
        Some(g) => g,
        None => {
            proof {
                assert(false);
            }
            PDG::new()
        },
    }
}

/// The records before position `n` are handled without a panic when all are.
proof fn lemma_replay_ok_prefix(apis: Seq<callback::Record>, n: int)
    requires
        replay_ok(apis),
        0 <= n <= apis.len(),
    ensures
        replay_ok(apis.take(n)),
    decreases apis.len(),
{
    if n < apis.len() {
        assert(apis.drop_last().take(n) =~= apis.take(n));
        lemma_replay_ok_prefix(apis.drop_last(), n);
    } else {
        assert(apis.take(n) =~= apis);
    }
}

/// A new edge keeps the numbering: it is the one edge more, numbered `next_edge`.
proof fn lemma_with_edge_well_numbered(g: PdgModel, key: u64)
    requires
        g.well_numbered(),
        key <= g.next_node,
        g.next_node + 2 <= u64::MAX,
        g.next_edge + 1 <= u64::MAX,
    ensures
        g.with_edge(key).edges.dom().len() == g.edges.dom().len() + 1,
        g.with_edge(key).edges.dom().finite(),
        !g.edges.contains_key((key, (g.next_node + 1) as u64)),
{
    let fresh = (key, (g.next_node + 1) as u64);
    assert(!g.edges.contains_key(fresh));
    assert(g.with_edge(key).edges.dom() =~= g.edges.dom().insert(fresh));
}

/// Adding a computation keeps the graph well numbered, with one edge more.
pub proof fn lemma_with_compute_well_numbered(g: PdgModel, key: u64, c: ComputeModel)
    requires
        g.well_numbered(),
        key <= g.next_node,
        g.next_node + 2 <= u64::MAX,
        g.next_edge + 1 <= u64::MAX,
    ensures
        g.with_compute(key, c).well_numbered(),
        g.with_compute(key, c).edges.dom().len() == g.edges.dom().len() + 1,
{
    lemma_with_edge_well_numbered(g, key);
    let h = g.with_compute(key, c);
    assert(!g.computes.contains_key(g.next_edge));
    assert(!g.transfers.contains_key(g.next_edge));
    assert(h.computes.dom() =~= g.computes.dom().insert(g.next_edge));
    assert(h.transfers.dom() =~= g.transfers.dom());
    assert forall|n: u64| n < h.next_edge implies #[trigger] h.computes.contains_key(n) || #[trigger] h.transfers.contains_key(n) by {
        if n < g.next_edge {
            assert(g.computes.contains_key(n) || g.transfers.contains_key(n));
        }
    }
}

/// Adding a transfer keeps the graph well numbered, with one edge more.
pub proof fn lemma_with_transfer_well_numbered(g: PdgModel, key: u64, t: TransferModel)
    requires
        g.well_numbered(),
        key <= g.next_node,
        g.next_node + 2 <= u64::MAX,
        g.next_edge + 1 <= u64::MAX,
    ensures
        g.with_transfer(key, t).well_numbered(),
        g.with_transfer(key, t).edges.dom().len() == g.edges.dom().len() + 1,
{
    lemma_with_edge_well_numbered(g, key);
    let h = g.with_transfer(key, t);
    assert(!g.computes.contains_key(g.next_edge));
    assert(!g.transfers.contains_key(g.next_edge));
    assert(h.transfers.dom() =~= g.transfers.dom().insert(g.next_edge));
    assert(h.computes.dom() =~= g.computes.dom());
    assert forall|n: u64| n < h.next_edge implies #[trigger] h.computes.contains_key(n) || #[trigger] h.transfers.contains_key(n) by {
        if n < g.next_edge {
            assert(g.computes.contains_key(n) || g.transfers.contains_key(n));
        }
    }
}

/// The graph before any edge is well numbered.
pub proof fn lemma_empty_well_numbered()
    ensures
        PdgModel::empty().well_numbered(),
{
    let g = PdgModel::empty();
    assert(g.edges.dom() =~= Set::<(u64, u64)>::empty());
    assert(g.computes.dom() =~= Set::<u64>::empty());
    assert(g.transfers.dom() =~= Set::<u64>::empty());
}

} // verus!
