use heteroprof::callback::{CudaMallocS, Record};
use heteroprof::cuda::value::Value;
use heteroprof::document::{record_source, Document, RecordSource};
use heteroprof::pdg::compute::Compute;
use heteroprof::pdg::edge::{ComputeS, Edge, TransferS};
use heteroprof::pdg::node::{Node, ValueS};
use heteroprof::pdg::transfer::Transfer;
use std::cmp::Ordering;

fn transfer(start: u64) -> Transfer {
    Transfer { correlation_id: 1, cuda_device_id: 0, kind: "k".to_string(), start, dur: 3, stream_id: 1 }
}

fn compute(start: u64) -> Compute {
    Compute {
        correlation_id: 1,
        cuda_device_id: 0,
        kind: "k".to_string(),
        name: "n".to_string(),
        start,
        duration: 3,
        completed: 1,
        stream_id: 1,
    }
}

#[test]
fn cmp_start_orders_by_start() {
    assert_eq!(transfer(5).cmp_start(&transfer(5)), Ordering::Equal);
    assert_eq!(transfer(4).cmp_start(&transfer(5)), Ordering::Less);
    assert_eq!(transfer(6).cmp_start(&transfer(5)), Ordering::Greater);
    assert_eq!(compute(5).cmp_start(&compute(5)), Ordering::Equal);
    assert_eq!(compute(1).cmp_start(&compute(2)), Ordering::Less);
    assert_eq!(compute(2).cmp_start(&compute(1)), Ordering::Greater);
}

#[test]
fn values_are_equal_by_id() {
    let a = Value { id: 3, ptr: 10, size: 4, times_modified: 0 };
    let b = Value { id: 3, ptr: 20, size: 8, times_modified: 5 };
    let c = Value { id: 4, ptr: 10, size: 4, times_modified: 0 };
    assert_eq!(a, b);
    assert_ne!(a, c);
    let mut d = a;
    d.increment();
    assert_eq!(d.times_modified, 1);
    assert_eq!(d, a);
}

#[test]
fn record_sources_by_kind() {
    assert_eq!(record_source("cupti_callback"), RecordSource::CuptiCallback);
    assert_eq!(record_source("cupti_activity"), RecordSource::CuptiActivity);
    assert_eq!(record_source("cudnn"), RecordSource::Cudnn);
    assert_eq!(record_source("cublas"), RecordSource::Cublas);
    assert_eq!(record_source("nccl"), RecordSource::Nccl);
    assert_eq!(record_source("cupti"), RecordSource::Unknown);
    assert_eq!(record_source(""), RecordSource::Unknown);
}

#[test]
fn document_keeps_records_in_order() {
    let mut doc = Document::new();
    assert!(doc.apis().is_empty());
    for ptr in [10u64, 20, 30] {
        doc.add_api(Record::CudaMalloc(CudaMallocS {
            calling_tid: 1,
            wall_start: 0,
            wall_end: 1,
            id: ptr,
            context_uid: 0,
            correlation_id: 0,
            symbol_name: String::new(),
            ptr,
            size: 1,
        }));
    }
    let ptrs: Vec<u64> = doc
        .apis()
        .iter()
        .map(|r| match r {
            Record::CudaMalloc(m) => m.ptr,
            _ => 0,
        })
        .collect();
    assert_eq!(ptrs, vec![10, 20, 30]);
    doc.apis_mut().pop();
    assert_eq!(doc.apis().len(), 2);
    assert!(doc.activities().is_empty());
    assert!(doc.activities_mut().is_empty());
    assert!(doc.cudnn_calls().is_empty());
}

#[test]
fn edge_and_node_identifiers() {
    assert_eq!(TransferS::new().id, 0);
    assert_eq!(ComputeS::new().id, 0);
    assert_eq!(ValueS::new(4).id, 4);
    let c = ComputeS::new();
    match Edge::Compute(&c) {
        Edge::Compute(x) => assert_eq!(x.id, 0),
        Edge::Transfer(_) => panic!("expected a compute edge"),
    }
    assert_eq!(Node::Value(ValueS::new(2)), Node::Value(ValueS { id: 2 }));
}
