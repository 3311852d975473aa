//! What each record of a trace does to the graph and to the threads, stated over all
//! inputs.
use vstd::prelude::*;
use crate::callback::{CudaConfigureCallS, CudaLaunchS, CudaMemcpyS, CudaSetupArgumentS, Record};
use crate::cuda::{first_holding, lemma_update_records_the_write, StateModel};
use crate::pdg::pdg::{lemma_with_compute_well_numbered, lemma_with_transfer_well_numbered};
use crate::pdg::replay::{
    after_configure, after_launch, after_memcpy, after_setup, compute_of, configure_ok, launch_arg, launch_arg_ok,
    launch_args, launch_args_ok, launch_ok,
    lemma_launch_args_threads, lemma_replay_well_numbered, memcpy_ok, memcpy_values, replay, replay_ok, setup_ok, Replay,
};

verus! {

/// A handled `cudaMemcpy` adds exactly one edge, a transfer numbered with the graph's
/// next edge number, and leaves the computations as they were; the transfer spans the
/// call: it starts at the call's `wall_start` and ends at its `wall_end`.
pub proof fn lemma_memcpy_adds_one_transfer(r: Replay, cm: CudaMemcpyS)
    requires
        r.graph.well_numbered(),
        memcpy_ok(r, cm),
    ensures
        ({
            let g = after_memcpy(r, cm).graph;
            let e = r.graph.next_edge;
            &&& g.edges.dom().len() == r.graph.edges.dom().len() + 1
            &&& g.next_edge == e + 1
            &&& !r.graph.transfers.contains_key(e)
            &&& g.transfers.dom() == r.graph.transfers.dom().insert(e)
            &&& g.computes == r.graph.computes
            &&& g.transfers[e].correlation_id == cm.correlation_id
            &&& g.transfers[e].start == cm.wall_start
            &&& g.transfers[e].start + g.transfers[e].dur == cm.wall_end
        }),
{
    let g = after_memcpy(r, cm).graph;
    lemma_with_transfer_well_numbered(r.graph, r.graph.next_node, crate::pdg::replay::transfer_of(cm));
    assert(g.transfers.dom() =~= r.graph.transfers.dom().insert(r.graph.next_edge));
}

/// The number of `cudaMemcpy` records of a trace.
pub open spec fn count_copies(apis: Seq<Record>) -> nat
    decreases apis.len(),
{
    if apis.len() == 0 {
        0
    } else {
        count_copies(apis.drop_last()) + if apis.last() is CudaMemcpy { 1nat } else { 0nat }
    }
}

/// Handling the arguments of a launch adds no transfer.
proof fn lemma_launch_args_transfers(r: Replay, cl: CudaLaunchS, args: Seq<u64>)
    ensures
        launch_args(r, cl, args).graph.transfers == r.graph.transfers,
    decreases args.len(),
{
    if args.len() > 0 {
        lemma_launch_args_transfers(r, cl, args.drop_last());
    }
}

/// The graph of a trace has one transfer for each `cudaMemcpy` record: no other record
/// adds a transfer, and each copy adds one.
pub proof fn lemma_transfers_count_copies(apis: Seq<Record>)
    requires
        replay_ok(apis),
    ensures
        replay(apis).graph.transfers.dom().finite(),
        replay(apis).graph.transfers.dom().len() == count_copies(apis),
    decreases apis.len(),
{
    if apis.len() == 0 {
        assert(replay(apis).graph.transfers.dom() =~= Set::<u64>::empty());
    } else {
        let prev = apis.drop_last();
        lemma_transfers_count_copies(prev);
        lemma_replay_well_numbered(prev);
        let r = replay(prev);
        match apis.last() {
            Record::CudaMemcpy(m) => {
                lemma_memcpy_adds_one_transfer(r, m);
            },
            Record::CudaLaunch(cl) => {
                lemma_launch_args_transfers(r, cl, r.state.threads[cl.calling_tid].args);
            },
            _ => {},
        }
    }
}

/// A launch computes from `cl.wall_start` to `cl.wall_end`: every computation that
/// handling its arguments adds starts at the call's `wall_start` and ends at its
/// `wall_end`.
pub proof fn lemma_launch_computes_span_the_call(r: Replay, cl: CudaLaunchS, args: Seq<u64>)
    requires
        launch_args_ok(r, cl, args),
    ensures
        forall|n: u64| #[trigger] launch_args(r, cl, args).graph.computes.contains_key(n) && !r.graph.computes.contains_key(n)
            ==> launch_args(r, cl, args).graph.computes[n].start == cl.wall_start
            && launch_args(r, cl, args).graph.computes[n].start + launch_args(r, cl, args).graph.computes[n].duration
            == cl.wall_end,
    decreases args.len(),
{
    if args.len() > 0 {
        lemma_launch_computes_span_the_call(r, cl, args.drop_last());
    }
}

/// A thread without a configured launch holds no argument.
pub open spec fn threads_closed(s: StateModel) -> bool {
    forall|tid: u64| #[trigger] s.threads.contains_key(tid) && !s.threads[tid].valid ==> s.threads[tid].args.len() == 0
}

/// After a handled `cudaLaunch`, the launching thread has no configured launch and holds
/// no argument, and the other threads are as they were.
pub proof fn lemma_launch_closes_configuration(r: Replay, cl: CudaLaunchS)
    requires
        launch_ok(r, cl),
    ensures
        after_launch(r, cl).state.threads.contains_key(cl.calling_tid),
        !after_launch(r, cl).state.threads[cl.calling_tid].valid,
        after_launch(r, cl).state.threads[cl.calling_tid].args.len() == 0,
        forall|t: u64| t != cl.calling_tid ==> #[trigger] after_launch(r, cl).state.threads.contains_key(t)
            == r.state.threads.contains_key(t),
        forall|t: u64| t != cl.calling_tid && #[trigger] r.state.threads.contains_key(t)
            ==> after_launch(r, cl).state.threads[t] == r.state.threads[t],
{
    lemma_launch_args_threads(r, cl, r.state.threads[cl.calling_tid].args);
}

/// `cudaConfigureCall` on a thread that holds no argument when it has no configured
/// launch opens a launch with no argument.
pub proof fn lemma_configure_starts_empty(s: StateModel, cc: CudaConfigureCallS)
    requires
        threads_closed(s),
        configure_ok(s, cc),
    ensures
        after_configure(s, cc).threads[cc.calling_tid].valid,
        after_configure(s, cc).threads[cc.calling_tid].args.len() == 0,
{
}

/// `cudaSetupArgument` appends its argument to the thread's launch.
pub proof fn lemma_setup_appends(s: StateModel, sa: CudaSetupArgumentS)
    requires
        setup_ok(s, sa),
    ensures
        after_setup(s, sa).threads[sa.calling_tid].valid,
        after_setup(s, sa).threads[sa.calling_tid].args == s.thread_or_fresh(sa.calling_tid).args.push(sa.arg),
{
}

/// Throughout a trace, a thread without a configured launch holds no argument; so a
/// launch handles exactly the arguments set up since its own `cudaConfigureCall`.
pub proof fn lemma_replay_threads_closed(apis: Seq<Record>)
    requires
        replay_ok(apis),
    ensures
        threads_closed(replay(apis).state),
    decreases apis.len(),
{
    if apis.len() > 0 {
        let prev = apis.drop_last();
        lemma_replay_threads_closed(prev);
        let r = replay(prev);
        let s2 = replay(apis).state;
        match apis.last() {
            Record::CudaLaunch(cl) => {
                lemma_launch_closes_configuration(r, cl);
                assert forall|tid: u64| #[trigger] s2.threads.contains_key(tid) && !s2.threads[tid].valid
                    implies s2.threads[tid].args.len() == 0 by {
                    if tid != cl.calling_tid {
                        assert(r.state.threads.contains_key(tid));
                    }
                }
            },
            _ => {},
        }
    }
}

/// Some allocation of `s` holds a value at `addr` made by call `id` of `count` bytes
/// starting at `addr`.
pub open spec fn holds_written_value(s: StateModel, addr: u64, id: u64, count: u64) -> bool {
    exists|i: int| 0 <= i < s.allocations.len() && #[trigger] s.allocations[i].values.contains_key(addr)
        && s.allocations[i].values[addr].id == id && s.allocations[i].values[addr].ptr == addr
        && s.allocations[i].values[addr].size == count
}

/// Some allocation of `s` holds `addr`.
pub open spec fn some_holds(s: StateModel, addr: u64) -> bool {
    exists|i: int| 0 <= i < s.allocations.len() && (#[trigger] s.allocations[i]).holds(addr)
}

/// Writing after recording a host address: the write lands as `lemma_update_records_the_write` says.
proof fn lemma_host_then_write(s: StateModel, host: u64, id: u64, dev: u64, count: u64)
    ensures
        s.add_host(host).update(id, dev, count).host_pointers == s.host_pointers.insert(host),
        s.add_host(host).update(id, dev, count).threads == s.threads,
        s.add_host(host).update(id, dev, count).allocations.len() == s.allocations.len(),
        some_holds(s, dev) ==> holds_written_value(s.add_host(host).update(id, dev, count), dev, id, count),
{
    let s1 = s.add_host(host);
    lemma_update_records_the_write(s1, id, dev, count);
    if some_holds(s, dev) {
        let i = choose|i: int| 0 <= i < s.allocations.len() && (#[trigger] s.allocations[i]).holds(dev);
        assert(s1.allocations[i].holds(dev));
        let v = s1.updated_value(id, dev, count)->0;
        let k = choose|k: int| 0 <= k < s1.allocations.len() && (#[trigger] s1.allocations[k]).holds(dev)
            && s1.update(id, dev, count).allocations[k].values.contains_key(dev)
            && s1.update(id, dev, count).allocations[k].values[dev] == v;
        assert(s1.update(id, dev, count).allocations[k].values.contains_key(dev));
    }
}

/// A copy from the host (kind 1) records the host source and writes a new value of
/// `count` bytes, made by the call, at the destination; a copy to the host (kind 2)
/// records the host destination and writes that value at the source. The written
/// address then holds the value whenever some allocation holds it.
pub proof fn lemma_memcpy_writes_device_side(s: StateModel, cm: CudaMemcpyS)
    ensures
        cm.cuda_memcpy_kind == 1 ==> memcpy_values(s, cm).0.host_pointers == s.host_pointers.insert(cm.src)
            && memcpy_values(s, cm).0.threads == s.threads
            && memcpy_values(s, cm).0.allocations.len() == s.allocations.len()
            && (some_holds(s, cm.dst) ==> holds_written_value(memcpy_values(s, cm).0, cm.dst, cm.id, cm.count)),
        cm.cuda_memcpy_kind == 2 ==> memcpy_values(s, cm).0.host_pointers == s.host_pointers.insert(cm.dst)
            && memcpy_values(s, cm).0.threads == s.threads
            && memcpy_values(s, cm).0.allocations.len() == s.allocations.len()
            && (some_holds(s, cm.src) ==> holds_written_value(memcpy_values(s, cm).0, cm.src, cm.id, cm.count)),
{
    if cm.cuda_memcpy_kind == 1 {
        lemma_host_then_write(s, cm.src, cm.id, cm.dst, cm.count);
    } else if cm.cuda_memcpy_kind == 2 {
        lemma_host_then_write(s, cm.dst, cm.id, cm.src, cm.count);
    }
}

/// Each argument of a launch adds one compute edge, numbered with the graph's next edge
/// number, when the first allocation holding the argument has a value starting there,
/// and nothing to the graph otherwise; it never adds a transfer.
pub proof fn lemma_launch_arg_adds_compute(r: Replay, cl: CudaLaunchS, arg: u64)
    requires
        r.graph.well_numbered(),
        launch_arg_ok(r, cl, arg),
    ensures
        ({
            let g = launch_arg(r, cl, arg).graph;
            let holder = first_holding(r.state.allocations, arg);
            let has_value = holder matches Some(i) && r.state.allocations[i].values.contains_key(arg);
            &&& g.transfers == r.graph.transfers
            &&& has_value ==> g.computes.dom() == r.graph.computes.dom().insert(r.graph.next_edge)
                && !r.graph.computes.contains_key(r.graph.next_edge)
                && g.edges.dom().len() == r.graph.edges.dom().len() + 1
                && g.computes[r.graph.next_edge].start == cl.wall_start
                && g.computes[r.graph.next_edge].start + g.computes[r.graph.next_edge].duration == cl.wall_end
            &&& !has_value ==> g == r.graph
        }),
{
    if r.state.found_values(arg) is Some {
        lemma_with_compute_well_numbered(r.graph, r.graph.next_node, compute_of(cl));
        let g = launch_arg(r, cl, arg).graph;
        assert(g.computes.dom() =~= r.graph.computes.dom().insert(r.graph.next_edge));
    }
}

} // verus!
