use heteroprof::cuda::value::Value;
use heteroprof::pdg::compute::Compute;
use heteroprof::pdg::pdg::PDG;
use heteroprof::pdg::transfer::Transfer;
use heteroprof::statistics::{spans_fit_graph, DocumentStatistics};

fn transfer(start: u64, dur: u64) -> Transfer {
    Transfer { correlation_id: 1, cuda_device_id: 0, kind: "cudaMemcpyHostToDevice".to_string(), start, dur, stream_id: 1 }
}

fn compute(start: u64, duration: u64) -> Compute {
    Compute {
        correlation_id: 1,
        cuda_device_id: 1,
        kind: "fix".to_string(),
        name: String::new(),
        start,
        duration,
        completed: 1,
        stream_id: 1,
    }
}

fn value(id: u64) -> Option<Value> {
    Some(Value { id, ptr: 0, size: 0, times_modified: 0 })
}

#[test]
fn each_edge_is_new_and_numbered() {
    let mut g = PDG::new();
    assert_eq!(g.num_nodes(), 0);
    assert_eq!(g.num_edges(), 0);
    g.add_transfer(transfer(0, 1), value(1), value(2));
    g.add_compute(compute(0, 1), value(2), value(3));
    g.add_transfer(transfer(5, 1), None, value(4));
    assert_eq!(g.num_nodes(), 6);
    assert_eq!(g.num_edges(), 3);
    assert!(g.transfers.contains_key(&0));
    assert!(g.computes.contains_key(&1));
    assert!(g.transfers.contains_key(&2));
    assert_eq!(g.computes.len() + g.transfers.len(), g.num_edges());
    assert!(g.graph.contains_edge(0, 1));
    assert!(g.graph.contains_edge(2, 3));
    assert!(g.graph.contains_edge(4, 5));
    assert_eq!(*g.graph.edge_weight(4, 5).unwrap(), 2);
}

#[test]
fn longest_path_over_separate_edges() {
    let mut g = PDG::new();
    for i in 0..4 {
        g.add_transfer(transfer(i, 1), value(i), value(i + 100));
    }
    // Edges 0->1, 2->3, 4->5, 6->7 weighted 0..3: the search from each source finds
    // the weight of its own edge, and the greatest is 3.
    assert_eq!(g.find_longest_path(), 3);
}

#[test]
fn longest_path_single_edge_is_its_weight() {
    let mut g = PDG::new();
    g.add_compute(compute(0, 1), value(1), value(2));
    assert_eq!(g.find_longest_path(), 0);
}

#[test]
fn bins_split_busy_time() {
    let mut g = PDG::new();
    g.add_compute(compute(10, 10), value(1), value(2));
    g.add_transfer(transfer(15, 15), value(3), value(4));
    let mut stats = DocumentStatistics::new(&g);
    let bins = stats.generate_bins();
    // computing: {0} and 10..=20; transferring: {0} and 15..=30
    assert_eq!(bins.compute_only, 4); // 10..=14
    assert_eq!(bins.transfer_only, 9); // 21..=30
    assert_eq!(bins.compute_transfer, 5); // {0} and 15..=20
    assert!(stats.overlap_bins.is_empty());
}

#[test]
fn bins_of_an_empty_graph() {
    let g = PDG::new();
    let mut stats = DocumentStatistics::new(&g);
    let bins = stats.generate_bins();
    assert_eq!(bins.compute_only, 0);
    assert_eq!(bins.transfer_only, 0);
    assert_eq!(bins.compute_transfer, 0);
}

#[test]
fn bins_of_disjoint_spans() {
    let mut g = PDG::new();
    g.add_compute(compute(100, 50), value(1), value(2));
    g.add_compute(compute(120, 100), value(3), value(4));
    g.add_transfer(transfer(300, 10), value(5), value(6));
    let mut stats = DocumentStatistics::new(&g);
    let bins = stats.generate_bins();
    assert_eq!(bins.compute_only, 120); // 100..=220
    assert_eq!(bins.transfer_only, 10); // 300..=310
    assert_eq!(bins.compute_transfer, 0); // {0}
}

#[test]
fn spans_fit_up_to_the_last_instant() {
    let mut g = PDG::new();
    assert!(spans_fit_graph(&g));
    g.add_compute(compute(10, 10), value(1), value(2));
    g.add_compute(compute(u64::MAX - 2, 1), value(3), value(4));
    assert!(spans_fit_graph(&g));
    g.add_transfer(transfer(u64::MAX - 1, 1), value(5), value(6));
    assert!(!spans_fit_graph(&g));
    let mut h = PDG::new();
    h.add_compute(compute(u64::MAX, u64::MAX), value(1), value(2));
    assert!(!spans_fit_graph(&h));
}

#[test]
fn longest_path_of_one_heavy_edge() {
    let mut g = PDG::new();
    g.graph.add_edge(0, 1, 1u64 << 62);
    assert_eq!(g.find_longest_path(), 1u64 << 62);
}

#[test]
fn adds_number_nodes_and_edges_in_order() {
    let mut g = PDG::new();
    for j in 0..5u64 {
        if j % 2 == 0 {
            g.add_compute(compute(j, 1), value(j), value(j + 10));
        } else {
            g.add_transfer(transfer(j, 1), value(j), value(j + 10));
        }
        assert!(g.graph.contains_edge(2 * j, 2 * j + 1));
        assert_eq!(*g.graph.edge_weight(2 * j, 2 * j + 1).unwrap(), j);
    }
    assert_eq!(g.num_nodes(), 2 * g.num_edges());
    assert_eq!(g.computes.len() + g.transfers.len(), 5);
    assert_eq!(g.find_longest_path(), 4);
}

#[test]
fn longest_path_of_two_heavy_separate_edges() {
    let mut g = PDG::new();
    g.graph.add_edge(0, 1, 1u64 << 62);
    g.graph.add_edge(2, 3, (1u64 << 62) + 1);
    assert_eq!(g.find_longest_path(), (1u64 << 62) + 1);
}
