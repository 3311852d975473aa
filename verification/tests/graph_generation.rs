use heteroprof::activity;
use heteroprof::callback::{CudaConfigureCallS, CudaLaunchS, CudaMallocS, CudaMemcpyS, CudaSetupArgumentS, Record};
use heteroprof::cuda::dim3::Dim3;
use heteroprof::document::Document;
use heteroprof::cudnn;
use heteroprof::pdg::pdg::{from_document, try_from_document};

fn malloc(correlation_id: u64, id: u64, ptr: u64, size: u64) -> Record {
    Record::CudaMalloc(CudaMallocS {
        calling_tid: 11358,
        wall_start: 1522732322547936932,
        wall_end: 1522732322548815154,
        id,
        context_uid: 1,
        correlation_id,
        symbol_name: String::new(),
        ptr,
        size,
    })
}

fn memcpy(correlation_id: u64, id: u64, src: u64, dst: u64, count: u64, kind: u64) -> Record {
    Record::CudaMemcpy(CudaMemcpyS {
        calling_tid: 11358,
        wall_start: 1522732322548899498,
        wall_end: 1522732322549018855,
        id,
        context_uid: 1,
        correlation_id,
        symbol_name: String::new(),
        src,
        count,
        dst,
        cuda_memcpy_kind: kind,
    })
}

fn memcpy_activity() -> activity::Record {
    activity::Record::Memcpy(activity::MemcpyS {
        correlation_id: 744,
        cuda_device_id: 0,
        dur: 0,
        start: 0,
        stream_id: 7,
        src_kind: "pageable".to_string(),
        dst_kind: "device".to_string(),
        cuda_memcpy_kind: "htod".to_string(),
        runtime_correlation_id: 0,
    })
}

fn document(apis: Vec<Record>, activities: Vec<activity::Record>) -> Document {
    let mut doc = Document::new();
    for a in apis {
        doc.add_api(a);
    }
    for a in activities {
        doc.add_activity(a);
    }
    doc
}

#[test]
fn value_from_malloc_test() {}

#[test]
fn pdg_graph_generation_test() {
    let doc = document(
        vec![
            malloc(743, 4, 1099882823680, 112),
            memcpy(744, 5, 70368511724768, 1099882823680, 112, 1),
            malloc(745, 6, 1099882824192, 1024),
            malloc(754, 7, 1099884920832, 32768),
        ],
        vec![memcpy_activity()],
    );
    let _graph = from_document(&doc);
}

#[test]
fn pdg_graph_transfer_generation_test() {
    let doc = document(
        vec![
            malloc(743, 4, 1099882823680, 112),
            malloc(745, 6, 70368511724768, 1024),
            memcpy(744, 5, 70368511724768, 1099882823680, 112, 3),
        ],
        vec![memcpy_activity()],
    );
    let mut graph = from_document(&doc);
    assert_eq!(graph.num_nodes(), 2);
    assert_eq!(graph.num_edges(), 1);
}

#[test]
fn pdg_graph_host_transfer_generation_test() {
    let doc = document(
        vec![
            malloc(743, 4, 1099882823680, 112),
            memcpy(744, 5, 70368511724768, 1099882823680, 112, 1),
        ],
        vec![memcpy_activity()],
    );
    let mut graph = from_document(&doc);
    assert_eq!(graph.num_nodes(), 2);
    assert_eq!(graph.num_edges(), 1);
}

fn matrix_mul_document() -> Document {
    let dim = |x, y, z| Dim3 { x, y, z };
    let setup = |correlation_id: u64, id: u64, arg: u64, offset: u64, size: u64| {
        Record::CudaSetupArgument(CudaSetupArgumentS {
            calling_tid: 46056,
            wall_start: 1525148677203734038,
            wall_end: 1525148677203776111,
            id,
            context_uid: 1,
            correlation_id,
            symbol_name: String::new(),
            offset,
            size,
            arg,
        })
    };
    let mut apis = vec![
        malloc(732, 1, 1099633262592, 409600),
        malloc(733, 2, 1099633672192, 819200),
        malloc(734, 3, 1099634491392, 819200),
        memcpy(735, 4, 70366851760144, 1099633262592, 409600, 1),
        memcpy(736, 5, 70366850908176, 1099633672192, 819200, 1),
        Record::CudaConfigureCall(CudaConfigureCallS {
            calling_tid: 46056,
            wall_start: 1525148677203481914,
            wall_end: 1525148677203536095,
            id: 6,
            context_uid: 1,
            correlation_id: 737,
            symbol_name: String::new(),
            grid_dim: dim(20, 10, 1),
            block_dim: dim(32, 32, 1),
            shared_mem: 0,
            stream: 0,
        }),
    ];
    apis.push(setup(738, 7, 1099634491392, 0, 8));
    apis.push(setup(739, 8, 1099633262592, 8, 8));
    apis.push(setup(740, 9, 1099633672192, 16, 8));
    apis.push(setup(741, 10, 524176775379419456, 24, 4));
    apis.push(setup(742, 11, 1374389535360, 28, 4));
    apis.push(Record::CudaLaunch(CudaLaunchS {
        calling_tid: 46056,
        wall_start: 1525148677204115694,
        wall_end: 1525148677204220899,
        id: 12,
        context_uid: 1,
        correlation_id: 743,
        symbol_name: String::new(),
        func: 268458084,
        params: vec![],
    }));
    document(apis, vec![])
}

#[test]
fn test_matrix_mul() {
    let doc = matrix_mul_document();
    let mut graph = from_document(&doc);
    println!("The node count is: {}", graph.num_nodes());
    println!("The edge count is: {}", graph.num_edges());
    println!("The longest path is: {}", graph.find_longest_path());
}

#[test]
fn matrix_mul_graph_shape() {
    let doc = matrix_mul_document();
    let mut graph = from_document(&doc);
    // two copies to the device, then one computation for each of the two arguments
    // whose memory holds a copied value
    assert_eq!(graph.num_nodes(), 8);
    assert_eq!(graph.num_edges(), 4);
    assert_eq!(graph.transfers.len(), 2);
    assert_eq!(graph.computes.len(), 2);
    assert_eq!(graph.find_longest_path(), 3);
}

fn setup_argument(arg: u64) -> Record {
    Record::CudaSetupArgument(CudaSetupArgumentS {
        calling_tid: 7,
        wall_start: 10,
        wall_end: 20,
        id: 1,
        context_uid: 1,
        correlation_id: 1,
        symbol_name: String::new(),
        offset: 0,
        size: 8,
        arg,
    })
}

#[test]
fn try_from_document_builds_what_from_document_builds() {
    let doc = document(
        vec![
            malloc(743, 4, 1099882823680, 112),
            memcpy(744, 5, 70368511724768, 1099882823680, 112, 1),
            memcpy(745, 6, 70368511724768, 1099882823680, 112, 1),
        ],
        vec![memcpy_activity()],
    );
    let mut graph = try_from_document(&doc).unwrap();
    assert_eq!(graph.num_nodes(), 4);
    assert_eq!(graph.num_edges(), 2);
    assert_eq!(graph.find_longest_path(), 1);
}

#[test]
fn try_from_document_refuses_an_unknown_copy_direction() {
    let doc = document(vec![memcpy(744, 5, 1, 2, 112, 0)], vec![]);
    assert!(try_from_document(&doc).is_none());
    let doc = document(vec![memcpy(744, 5, 1, 2, 112, 4)], vec![]);
    assert!(try_from_document(&doc).is_none());
}

#[test]
fn try_from_document_refuses_an_argument_without_a_configured_launch() {
    let doc = document(vec![setup_argument(5)], vec![]);
    assert!(try_from_document(&doc).is_none());
}

#[test]
fn an_allocation_past_the_address_space_is_recorded() {
    let doc = document(vec![malloc(1, 1, u64::MAX - 1, 4)], vec![]);
    let mut graph = try_from_document(&doc).unwrap();
    assert_eq!(graph.num_edges(), 0);
    // A copy below it finds its allocation first; one above it must look at the
    // allocation that passes the end of the address space, which cannot be done.
    let doc = document(
        vec![malloc(1, 1, u64::MAX - 1, 4), malloc(2, 2, 100, 50), memcpy(3, 3, 7, 100, 8, 1)],
        vec![],
    );
    assert_eq!(try_from_document(&doc).unwrap().num_edges(), 1);
    let doc = document(vec![malloc(1, 1, u64::MAX - 1, 4), memcpy(3, 3, 7, 200, 8, 1)], vec![]);
    assert!(try_from_document(&doc).is_none());
}

#[test]
fn try_from_document_refuses_cudnn_calls() {
    let mut doc = document(vec![malloc(743, 4, 1099882823680, 112)], vec![]);
    doc.add_cudnn(cudnn::Record::CudnnCreate(cudnn::CudnnCreateS {
        calling_tid: 1,
        wall_start: 0,
        wall_end: 1,
        id: 1,
        cudnn_handle: 9,
    }));
    assert!(try_from_document(&doc).is_none());
}
