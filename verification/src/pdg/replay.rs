//! What building the dependence graph out of a trace does, record by record, as
//! mathematical functions.
use vstd::prelude::*;
use crate::callback::{CudaConfigureCallS, CudaLaunchS, CudaMallocS, CudaMemcpyS, CudaSetupArgumentS, Record};
use crate::cuda::allocation::{AddressSpace, AllocationModel};
use crate::cuda::value::Value;
use crate::cuda::{StateModel, ThreadModel};
use crate::pdg::compute::ComputeModel;
use crate::pdg::pdg::{lemma_empty_well_numbered, lemma_with_compute_well_numbered, lemma_with_transfer_well_numbered, PdgModel};
use crate::pdg::transfer::TransferModel;

verus! {

/// The CUDA state and the graph built so far.
#[verifier::ext_equal]
pub ghost struct Replay {
    pub state: StateModel,
    pub graph: PdgModel,
}

impl Replay {
    /// Before the first record.
    pub open spec fn initial() -> Replay {
        Replay { state: StateModel::initial(), graph: PdgModel::empty() }
    }

    /// The state is well formed and the graph knows no value.
    pub open spec fn inv(self) -> bool {
        &&& self.state.wf()
        &&& self.graph.known_values == Map::<u64, Value>::empty()
    }
}

/// The state after `cudaMalloc`: a fresh allocation in the unified address space.
pub open spec fn after_malloc(s: StateModel, cm: CudaMallocS) -> StateModel {
    s.add_allocation(AllocationModel::fresh(0, cm.ptr, cm.size, AddressSpace::UVA))
}

/// `cudaConfigureCall` needs the thread to have no configured launch.
pub open spec fn configure_ok(s: StateModel, cc: CudaConfigureCallS) -> bool {
    !s.thread_or_fresh(cc.calling_tid).valid
}

/// The state after `cudaConfigureCall`: the thread has a configured launch.
pub open spec fn after_configure(s: StateModel, cc: CudaConfigureCallS) -> StateModel {
    let t = s.thread_or_fresh(cc.calling_tid);
    StateModel { threads: s.threads.insert(cc.calling_tid, ThreadModel { valid: true, ..t }), ..s }
}

/// `cudaSetupArgument` needs the thread to have a configured launch.
pub open spec fn setup_ok(s: StateModel, sa: CudaSetupArgumentS) -> bool {
    s.thread_or_fresh(sa.calling_tid).valid
}

/// The state after `cudaSetupArgument`: the argument is added to the launch.
pub open spec fn after_setup(s: StateModel, sa: CudaSetupArgumentS) -> StateModel {
    let t = s.thread_or_fresh(sa.calling_tid);
    StateModel { threads: s.threads.insert(sa.calling_tid, ThreadModel { args: t.args.push(sa.arg), ..t }), ..s }
}

/// The name of a copy direction.
pub open spec fn memcpy_kind_name(kind: u64) -> Seq<char> {
    if kind == 0 {
        "cudaMemcpyHostToHost"@
    } else if kind == 1 {
        "cudaMemcpyHostToDevice"@
    } else if kind == 2 {
        "cudaMemcpyDeviceToHost"@
    } else {
        "cudaMemcpyDeviceToDevice"@
    }
}

/// The transfer edge that a `cudaMemcpy` adds.
pub open spec fn transfer_of(cm: CudaMemcpyS) -> TransferModel {
    TransferModel {
        correlation_id: cm.correlation_id,
        cuda_device_id: 50,
        kind: memcpy_kind_name(cm.cuda_memcpy_kind),
        start: cm.wall_start,
        dur: (cm.wall_end - cm.wall_start) as u64,
        stream_id: 1,
    }
}

/// `cudaMemcpy` on the state: host addresses are recorded, device addresses get new
/// values (for a device to device copy, the destination first). Gives the new state,
/// the source value and the destination value.
pub open spec fn memcpy_values(s: StateModel, cm: CudaMemcpyS) -> (StateModel, Option<Value>, Option<Value>) {
    if cm.cuda_memcpy_kind == 1 {
        let s1 = s.add_host(cm.src);
        (s1.update(cm.id, cm.dst, cm.count), Some(s.host_value), s1.updated_value(cm.id, cm.dst, cm.count))
    } else if cm.cuda_memcpy_kind == 2 {
        let s1 = s.add_host(cm.dst);
        (s1.update(cm.id, cm.src, cm.count), s1.updated_value(cm.id, cm.src, cm.count), Some(s.host_value))
    } else {
        let s1 = s.update(cm.id, cm.dst, cm.count);
        (s1.update(cm.id, cm.src, cm.count), s1.updated_value(cm.id, cm.src, cm.count), s.updated_value(cm.id, cm.dst, cm.count))
    }
}

/// When `cudaMemcpy` is handled without a panic: the call ends after it starts, the
/// direction is 1, 2 or 3, the values fit, and the graph has room for an edge.
pub open spec fn memcpy_ok(r: Replay, cm: CudaMemcpyS) -> bool {
    let s = r.state;
    &&& cm.wall_start <= cm.wall_end
    &&& 1 <= cm.cuda_memcpy_kind <= 3
    &&& (cm.cuda_memcpy_kind == 1 ==> s.add_host(cm.src).can_update(cm.dst, cm.count))
    &&& (cm.cuda_memcpy_kind == 2 ==> s.add_host(cm.dst).can_update(cm.src, cm.count))
    &&& (cm.cuda_memcpy_kind == 3 ==> s.can_update(cm.dst, cm.count)
        && s.update(cm.id, cm.dst, cm.count).can_update(cm.src, cm.count))
    &&& r.graph.can_add(memcpy_values(s, cm).1)
}

/// After `cudaMemcpy`: the new values, and a transfer edge from a new node.
pub open spec fn after_memcpy(r: Replay, cm: CudaMemcpyS) -> Replay {
    Replay {
        state: memcpy_values(r.state, cm).0,
        graph: r.graph.with_transfer(r.graph.next_node, transfer_of(cm)),
    }
}

/// The compute edge that a launch adds for each argument whose value it rewrites.
pub open spec fn compute_of(cl: CudaLaunchS) -> ComputeModel {
    ComputeModel {
        correlation_id: cl.correlation_id,
        cuda_device_id: 1,
        kind: "fix"@,
        name: cl.symbol_name@,
        start: cl.wall_start,
        duration: (cl.wall_end - cl.wall_start) as u64,
        completed: 1,
        stream_id: 1,
    }
}

/// A launch rewrites the value its argument `arg` points to; when there is one, a
/// compute edge is added.
pub open spec fn launch_arg(r: Replay, cl: CudaLaunchS, arg: u64) -> Replay {
    if r.state.found_values(arg) is Some {
        Replay { state: r.state.find(arg), graph: r.graph.with_compute(r.graph.next_node, compute_of(cl)) }
    } else {
        Replay { state: r.state.find(arg), graph: r.graph }
    }
}

/// When `launch_arg` does not panic.
pub open spec fn launch_arg_ok(r: Replay, cl: CudaLaunchS, arg: u64) -> bool {
    &&& r.state.can_find(arg)
    &&& match r.state.found_values(arg) {
        Some((before, _)) => cl.wall_start <= cl.wall_end && r.graph.can_add(Some(before)),
        None => true,
    }
}

/// A launch handles its arguments in order.
pub open spec fn launch_args(r: Replay, cl: CudaLaunchS, args: Seq<u64>) -> Replay
    decreases args.len(),
{
    if args.len() == 0 {
        r
    } else {
        launch_arg(launch_args(r, cl, args.drop_last()), cl, args.last())
    }
}

/// When handling the arguments does not panic.
pub open spec fn launch_args_ok(r: Replay, cl: CudaLaunchS, args: Seq<u64>) -> bool
    decreases args.len(),
{
    if args.len() == 0 {
        true
    } else {
        launch_args_ok(r, cl, args.drop_last()) && launch_arg_ok(launch_args(r, cl, args.drop_last()), cl, args.last())
    }
}

/// `cudaLaunch` needs the thread to exist and to have a configured launch.
pub open spec fn launch_ok(r: Replay, cl: CudaLaunchS) -> bool {
    &&& r.state.threads.contains_key(cl.calling_tid)
    &&& r.state.threads[cl.calling_tid].valid
    &&& launch_args_ok(r, cl, r.state.threads[cl.calling_tid].args)
}

/// After `cudaLaunch`: every argument handled, then the launch configuration closed.
pub open spec fn after_launch(r: Replay, cl: CudaLaunchS) -> Replay {
    let p = launch_args(r, cl, r.state.threads[cl.calling_tid].args);
    let t = p.state.threads[cl.calling_tid];
    Replay {
        state: StateModel {
            threads: p.state.threads.insert(cl.calling_tid, ThreadModel { args: Seq::empty(), valid: false, ..t }),
            ..p.state
        },
        graph: p.graph,
    }
}

/// When a record is handled without a panic.
pub open spec fn step_ok(r: Replay, api: Record) -> bool {
    match api {
        Record::CudaMalloc(m) => true,
        Record::CudaConfigureCall(cc) => configure_ok(r.state, cc),
        Record::CudaSetupArgument(sa) => setup_ok(r.state, sa),
        Record::CudaMemcpy(m) => memcpy_ok(r, m),
        Record::CudaLaunch(cl) => launch_ok(r, cl),
    }
}

/// The state and graph after a record.
pub open spec fn step(r: Replay, api: Record) -> Replay {
    match api {
        Record::CudaMalloc(m) => Replay { state: after_malloc(r.state, m), ..r },
        Record::CudaConfigureCall(cc) => Replay { state: after_configure(r.state, cc), ..r },
        Record::CudaSetupArgument(sa) => Replay { state: after_setup(r.state, sa), ..r },
        Record::CudaMemcpy(m) => after_memcpy(r, m),
        Record::CudaLaunch(cl) => after_launch(r, cl),
    }
}

/// The state and graph after the records of a trace, in order.
pub open spec fn replay(apis: Seq<Record>) -> Replay
    decreases apis.len(),
{
    if apis.len() == 0 {
        Replay::initial()
    } else {
        step(replay(apis.drop_last()), apis.last())
    }
}

/// When every record of a trace is handled without a panic.
pub open spec fn replay_ok(apis: Seq<Record>) -> bool
    decreases apis.len(),
{
    if apis.len() == 0 {
        true
    } else {
        replay_ok(apis.drop_last()) && step_ok(replay(apis.drop_last()), apis.last())
    }
}

/// Handling the arguments of a launch leaves the threads as they are.
pub proof fn lemma_launch_args_threads(r: Replay, cl: CudaLaunchS, args: Seq<u64>)
    ensures
        launch_args(r, cl, args).state.threads == r.state.threads,
    decreases args.len(),
{
    if args.len() > 0 {
        lemma_launch_args_threads(r, cl, args.drop_last());
    }
}

/// Handling the arguments of a launch keeps the graph well numbered.
pub proof fn lemma_launch_args_well_numbered(r: Replay, cl: CudaLaunchS, args: Seq<u64>)
    requires
        r.graph.well_numbered(),
        launch_args_ok(r, cl, args),
    ensures
        launch_args(r, cl, args).graph.well_numbered(),
        launch_args(r, cl, args).graph.known_values == r.graph.known_values,
    decreases args.len(),
{
    if args.len() > 0 {
        lemma_launch_args_well_numbered(r, cl, args.drop_last());
        let p = launch_args(r, cl, args.drop_last());
        if p.state.found_values(args.last()) is Some {
            lemma_with_compute_well_numbered(p.graph, p.graph.next_node, compute_of(cl));
        }
    }
}

/// In the graph built from a trace every edge has its own number, the numbers are
/// `0..n` for `n` edges, and each names exactly one computation or transfer: there
/// are as many edges as computations and transfers together. The graph knows no value.
pub proof fn lemma_replay_well_numbered(apis: Seq<Record>)
    requires
        replay_ok(apis),
    ensures
        replay(apis).graph.well_numbered(),
        replay(apis).graph.known_values == Map::<u64, Value>::empty(),
    decreases apis.len(),
{
    if apis.len() == 0 {
        lemma_empty_well_numbered();
    } else {
        lemma_replay_well_numbered(apis.drop_last());
        let r = replay(apis.drop_last());
        match apis.last() {
            Record::CudaMemcpy(m) => {
                lemma_with_transfer_well_numbered(r.graph, r.graph.next_node, transfer_of(m));
            },
            Record::CudaLaunch(cl) => {
                lemma_launch_args_well_numbered(r, cl, r.state.threads[cl.calling_tid].args);
            },
            _ => {},
        }
    }
}

} // verus!
