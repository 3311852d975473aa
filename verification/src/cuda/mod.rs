pub mod allocation;
pub mod configured_call;
pub mod dim3;
pub mod value;

use vstd::prelude::*;
use std::collections::{BTreeSet, HashMap};
use crate::cuda::allocation::{lemma_occupy_records_the_write, Allocation, AllocationModel};
use crate::cuda::configured_call::ConfiguredCall;
use crate::cuda::value::Value;

verus! {

broadcast use {vstd::std_specs::hash::group_hash_axioms, vstd::std_specs::btree::group_btree_axioms};

/// A host thread of the traced program and the kernel launch it is setting up.
pub struct Thread {
    pub current_device: u64,
    pub configured_call: ConfiguredCall,
}

/// A thread as mathematical values: its device, the arguments of the launch being
/// set up, and whether a launch is configured.
pub ghost struct ThreadModel {
    pub current_device: u64,
    pub args: Seq<u64>,
    pub valid: bool,
}

impl View for Thread {
    type V = ThreadModel;

    open spec fn view(&self) -> ThreadModel {
        ThreadModel {
            current_device: self.current_device,
            args: self.configured_call.args@,
            valid: self.configured_call.valid,
        }
    }
}

impl ThreadModel {
    /// A thread seen for the first time.
    pub open spec fn fresh() -> ThreadModel {
        ThreadModel { current_device: 0, args: Seq::empty(), valid: false }
    }
}

impl Thread {
    pub fn new() -> (t: Thread)
        ensures
            t@ == ThreadModel::fresh(),
    {
        Thread { current_device: 0, configured_call: ConfiguredCall::new() }
    }
}

/// What the CUDA runtime looks like at a point of the trace: the threads, the
/// allocations (ordered by address, no two at the same address), the host addresses
/// seen, and the one value that stands for all host memory.
pub struct State {
    pub threads: HashMap<u64, Thread>,
    pub allocations: Vec<Allocation>,
    pub host_pointers: BTreeSet<u64>,
    pub host_value: Value,
}

/// The state as mathematical values.
#[verifier::ext_equal]
pub ghost struct StateModel {
    pub threads: Map<u64, ThreadModel>,
    pub allocations: Seq<AllocationModel>,
    pub host_pointers: Set<u64>,
    pub host_value: Value,
}

impl View for State {
    type V = StateModel;

    open spec fn view(&self) -> StateModel {
        StateModel {
            threads: Map::new(|k: u64| self.threads@.contains_key(k), |k: u64| self.threads@[k]@),
            allocations: self.allocations@.map_values(|a: Allocation| a@),
            host_pointers: self.host_pointers@,
            host_value: self.host_value,
        }
    }
}

/// Whether `i` is the first allocation, in address order, that holds `addr`.
pub open spec fn is_first_holding(allocs: Seq<AllocationModel>, addr: u64, i: int) -> bool {
    &&& 0 <= i < allocs.len()
    &&& allocs[i].holds(addr)
    &&& forall|j: int| 0 <= j < i ==> !(#[trigger] allocs[j]).holds(addr)
}

/// The first allocation, in address order, that holds `addr`, if any.
pub open spec fn first_holding(allocs: Seq<AllocationModel>, addr: u64) -> Option<int> {
    if exists|i: int| is_first_holding(allocs, addr, i) {
        Some(choose|i: int| is_first_holding(allocs, addr, i))
    } else {
        None
    }
}

/// Whether searching the allocations in address order for one holding `addr` does
/// not panic: every allocation looked at before the search stops ends at `u64::MAX`
/// at the latest (the end of each is computed to test whether it holds `addr`).
pub open spec fn search_fits(allocs: Seq<AllocationModel>, addr: u64) -> bool {
    forall|j: int| 0 <= j < allocs.len() && (forall|k: int| 0 <= k < j ==> !(#[trigger] allocs[k]).holds(addr))
        ==> (#[trigger] allocs[j]).pos + allocs[j].size <= u64::MAX
}

/// Whether `i` is where an allocation at `pos` goes among allocations ordered by address.
pub open spec fn is_insertion_index(allocs: Seq<AllocationModel>, pos: u64, i: int) -> bool {
    &&& 0 <= i <= allocs.len()
    &&& forall|j: int| 0 <= j < i ==> (#[trigger] allocs[j]).pos < pos
    &&& forall|j: int| i <= j < allocs.len() ==> (#[trigger] allocs[j]).pos > pos
}

impl StateModel {
    /// The state before the first record of a trace.
    pub open spec fn initial() -> StateModel {
        StateModel {
            threads: Map::empty(),
            allocations: Seq::empty(),
            host_pointers: Set::empty(),
            host_value: Value { id: 0, ptr: 0, size: 0, times_modified: 0 },
        }
    }

    /// The allocations are ordered by strictly increasing address.
    pub open spec fn wf(self) -> bool {
        forall|i: int, j: int|
            0 <= i < j < self.allocations.len() ==> (#[trigger] self.allocations[i]).pos
                < (#[trigger] self.allocations[j]).pos
    }

    /// The thread `tid`, or a fresh one if the trace has not mentioned it yet.
    pub open spec fn thread_or_fresh(self, tid: u64) -> ThreadModel {
        if self.threads.contains_key(tid) {
            self.threads[tid]
        } else {
            ThreadModel::fresh()
        }
    }

    /// The state after a host address is seen.
    pub open spec fn add_host(self, ptr: u64) -> StateModel {
        StateModel { host_pointers: self.host_pointers.insert(ptr), ..self }
    }

    /// The state after an allocation is added; an allocation already at the same
    /// address keeps its place and the new one is dropped.
    pub open spec fn add_allocation(self, a: AllocationModel) -> StateModel {
        if exists|j: int| 0 <= j < self.allocations.len() && (#[trigger] self.allocations[j]).pos == a.pos {
            self
        } else {
            let i = choose|i: int| is_insertion_index(self.allocations, a.pos, i);
            StateModel { allocations: self.allocations.insert(i, a), ..self }
        }
    }

    /// When `update_allocations` does not panic.
    pub open spec fn can_update(self, start: u64, size: u64) -> bool {
        &&& search_fits(self.allocations, start)
        &&& match first_holding(self.allocations, start) {
            Some(i) => self.allocations[i].can_occupy(start, size),
            None => true,
        }
    }

    /// The state after `size` bytes are written at `start` by call `id`: the first
    /// allocation holding `start` gets the new value.
    pub open spec fn update(self, id: u64, start: u64, size: u64) -> StateModel {
        match first_holding(self.allocations, start) {
            Some(i) => StateModel {
                allocations: self.allocations.update(i, self.allocations[i].occupy(id, start, size)),
                ..self
            },
            None => self,
        }
    }

    /// The value that `update_allocations` returns.
    pub open spec fn updated_value(self, id: u64, start: u64, size: u64) -> Option<Value> {
        match first_holding(self.allocations, start) {
            Some(i) => Some(self.allocations[i].occupied_value(id, start, size)),
            None => None,
        }
    }

    /// When `find_argument_values` does not panic.
    pub open spec fn can_find(self, ptr: u64) -> bool {
        &&& search_fits(self.allocations, ptr)
        &&& match first_holding(self.allocations, ptr) {
            Some(i) => self.allocations[i].can_compute(ptr),
            None => true,
        }
    }

    /// The state after a kernel argument `ptr` is found: the first allocation holding
    /// it rewrites the value that starts at `ptr`.
    pub open spec fn find(self, ptr: u64) -> StateModel {
        match first_holding(self.allocations, ptr) {
            Some(i) => StateModel {
                allocations: self.allocations.update(i, self.allocations[i].compute(ptr)),
                ..self
            },
            None => self,
        }
    }

    /// The (before, after) pair that `find_argument_values` returns.
    pub open spec fn found_values(self, ptr: u64) -> Option<(Value, Value)> {
        match first_holding(self.allocations, ptr) {
            Some(i) => if self.allocations[i].values.contains_key(ptr) {
                Some((self.allocations[i].values[ptr], self.allocations[i].computed_value(ptr)))
            } else {
                None
            },
            None => None,
        }
    }
}

impl State {
    pub fn new() -> (s: State)
        ensures
            s@ == StateModel::initial(),
    {
        let s = State {
            threads: HashMap::new(),
            allocations: Vec::new(),
            host_pointers: BTreeSet::new(),
            host_value: Value { id: 0, ptr: 0, size: 0, times_modified: 0 },
        };
        proof {
            assert(s@.threads =~= Map::empty());
            assert(s@.allocations =~= Seq::empty());
        }
        s
    }

    /// Records a host address; all host memory is one value, which is returned.
    pub fn add_host_pointer(&mut self, ptr: u64) -> (r: Option<Value>)
        ensures
            final(self)@ == old(self)@.add_host(ptr),
            r == Some(old(self).host_value),
    {
        self.host_pointers.insert(ptr);
        proof {
            assert(self@ =~= old(self)@.add_host(ptr));
        }
        Some(self.host_value)
    }

    /// Index of the first allocation, in address order, that holds `addr`.
    fn find_allocation(&self, addr: u64) -> (r: Option<usize>)
        requires
            search_fits(self@.allocations, addr),
        ensures
            match r {
                Some(i) => first_holding(self@.allocations, addr) == Some(i as int),
                None => first_holding(self@.allocations, addr) == None::<int>,
            },
    {
        let ghost allocs = self@.allocations;
        let mut i: usize = 0;
        while i < self.allocations.len()
            invariant
                search_fits(allocs, addr),
                allocs == self@.allocations,
                i <= self.allocations.len(),
                forall|j: int| 0 <= j < i ==> !(#[trigger] allocs[j]).holds(addr),
            decreases self.allocations.len() - i,
        {
            assert(allocs[i as int] == self.allocations[i as int]@);
            if self.allocations[i].contains(addr) {
                proof {
                    assert(is_first_holding(allocs, addr, i as int));
                    assert forall|k: int| is_first_holding(allocs, addr, k) implies k == i by {
                        if k < i {
                        } else if k > i {
                            assert(!allocs[i as int].holds(addr));
                        }
                    }
                }
                return Some(i);
            }
            i = i + 1;
        }
        proof {
            assert forall|k: int| !is_first_holding(allocs, addr, k) by {
                if 0 <= k < allocs.len() {
                    assert(!allocs[k].holds(addr));
                }
            }
        }
        None
    }

    /// Whether searching the allocations for one holding `addr` does not panic (see
    /// `search_fits`).
    pub fn search_fits_for(&self, addr: u64) -> (r: bool)
        ensures
            r == search_fits(self@.allocations, addr),
    {
        let ghost allocs = self@.allocations;
        let mut i: usize = 0;
        while i < self.allocations.len()
            invariant
                allocs == self@.allocations,
                i <= self.allocations.len(),
                forall|j: int| 0 <= j < i ==> !(#[trigger] allocs[j]).holds(addr),
                forall|j: int| 0 <= j < i ==> (#[trigger] allocs[j]).pos + allocs[j].size <= u64::MAX,
            decreases self.allocations.len() - i,
        {
            assert(allocs[i as int] == self.allocations[i as int]@);
            if self.allocations[i].pos > u64::MAX - self.allocations[i].size {
                proof {
                    assert(!search_fits(allocs, addr)) by {
                        assert(forall|k: int| 0 <= k < i ==> !(#[trigger] allocs[k]).holds(addr));
                    }
                }
                return false;
            }
            if self.allocations[i].contains(addr) {
                proof {
                    assert forall|j: int| 0 <= j < allocs.len() && (forall|k: int| 0 <= k < j ==> !(#[trigger] allocs[k]).holds(addr))
                        implies (#[trigger] allocs[j]).pos + allocs[j].size <= u64::MAX by {
                        if j > i {
                            assert(!allocs[i as int].holds(addr));
                        }
                    }
                }
                return true;
            }
            i = i + 1;
        }
        true
    }

    /// Adds an allocation at its place in address order, unless one is already at
    /// the same address.
    pub fn add_allocation(&mut self, a: Allocation)
        requires
            old(self)@.wf(),
        ensures
            final(self)@ == old(self)@.add_allocation(a@),
            final(self)@.wf(),
    {
        let ghost allocs = self@.allocations;
        let mut i: usize = 0;
        while i < self.allocations.len() && self.allocations[i].pos < a.pos
            invariant
                old(self)@ == self@,
                allocs == self@.allocations,
                i <= self.allocations.len(),
                forall|j: int| 0 <= j < i ==> (#[trigger] allocs[j]).pos < a.pos,
            decreases self.allocations.len() - i,
        {
            assert(allocs[i as int] == self.allocations[i as int]@);
            i = i + 1;
        }
        if i < self.allocations.len() && self.allocations[i].pos == a.pos {
            proof {
                assert(allocs[i as int] == self.allocations[i as int]@);
            }
            return;
        }
        proof {
            if i < allocs.len() {
                assert(allocs[i as int] == self.allocations[i as int]@);
            }
            assert(is_insertion_index(allocs, a.pos, i as int));
            assert(!exists|j: int| 0 <= j < allocs.len() && (#[trigger] allocs[j]).pos == a.pos);
            assert forall|k: int| is_insertion_index(allocs, a.pos, k) implies k == i by {
                if k < i {
                    assert(allocs[k].pos < a.pos);
                } else if k > i {
                    assert(allocs[i as int].pos > a.pos);
                }
            }
        }
        let ghost a_model = a@;
        self.allocations.insert(i, a);
        proof {
            assert(self@.allocations =~= allocs.insert(i as int, a_model));
            assert(self@ =~= old(self)@.add_allocation(a_model));
        }
    }

    /// Writes `allocation_size` bytes at `allocation_start` on behalf of call `id`:
    /// the first allocation holding the address gets a new value, which is returned.
    pub fn update_allocations(&mut self, id: u64, allocation_start: u64, allocation_size: u64) -> (r: Option<Value>)
        requires
            old(self)@.wf(),
            old(self)@.can_update(allocation_start, allocation_size),
        ensures
            final(self)@ == old(self)@.update(id, allocation_start, allocation_size),
            r == old(self)@.updated_value(id, allocation_start, allocation_size),
            final(self)@.wf(),
    {
        match self.find_allocation(allocation_start) {
            Some(i) => {
                let ghost allocs = self@.allocations;
                let mut alloc = self.allocations.remove(i);
                let value_rc = alloc.value_occupied(id, allocation_start, allocation_size);
                let ghost new_model = alloc@;
                self.allocations.insert(i, alloc);
                proof {
                    assert(self@.allocations =~= allocs.update(i as int, new_model));
                    assert(self@ =~= old(self)@.update(id, allocation_start, allocation_size));
                }
                Some(value_rc)
            },
            None => None,
        }
    }

    /// The same as `update_allocations`, for the values that kernel arguments point to.
    pub fn setup_arg_update_allocations(&mut self, id: u64, allocation_start: u64, allocation_size: u64) -> (r: Option<Value>)
        requires
            old(self)@.wf(),
            old(self)@.can_update(allocation_start, allocation_size),
        ensures
            final(self)@ == old(self)@.update(id, allocation_start, allocation_size),
            r == old(self)@.updated_value(id, allocation_start, allocation_size),
            final(self)@.wf(),
    {
        match self.find_allocation(allocation_start) {
            Some(i) => {
                let ghost allocs = self@.allocations;
                let mut alloc = self.allocations.remove(i);
                let value_rc = alloc.value_occupied(id, allocation_start, allocation_size);
                let ghost new_model = alloc@;
                self.allocations.insert(i, alloc);
                proof {
                    assert(self@.allocations =~= allocs.update(i as int, new_model));
                    assert(self@ =~= old(self)@.update(id, allocation_start, allocation_size));
                }
                Some(value_rc)
            },
            None => None,
        }
    }

    /// A kernel is launched with `ptr` as argument: the value starting at `ptr` in the
    /// first allocation holding it is rewritten, and (before, after) is returned.
    pub fn find_argument_values(&mut self, ptr: u64) -> (r: Option<(Value, Value)>)
        requires
            old(self)@.wf(),
            old(self)@.can_find(ptr),
        ensures
            final(self)@ == old(self)@.find(ptr),
            r == old(self)@.found_values(ptr),
            final(self)@.wf(),
    {
        match self.find_allocation(ptr) {
            Some(i) => {
                let ghost allocs = self@.allocations;
                let mut alloc = self.allocations.remove(i);
                let y = alloc.compute_value(ptr);
                let ghost new_model = alloc@;
                self.allocations.insert(i, alloc);
                proof {
                    assert(self@.allocations =~= allocs.update(i as int, new_model));
                    assert(self@ =~= old(self)@.find(ptr));
                }
                y
            },
            None => None,
        }
    }

    /// Whether `update_allocations(_, start, size)` can be called (see `can_update`).
    pub fn update_fits(&self, start: u64, size: u64) -> (r: bool)
        ensures
            r == self@.can_update(start, size),
    {
        if !self.search_fits_for(start) {
            return false;
        }
        match self.find_allocation(start) {
            Some(i) => {
                assert(self@.allocations[i as int] == self.allocations[i as int]@);
                self.allocations[i].occupy_fits(start, size)
            },
            None => true,
        }
    }

    /// Whether `find_argument_values(ptr)` can be called (see `can_find`).
    pub fn find_fits(&self, ptr: u64) -> (r: bool)
        ensures
            r == self@.can_find(ptr),
    {
        if !self.search_fits_for(ptr) {
            return false;
        }
        match self.find_allocation(ptr) {
            Some(i) => {
                assert(self@.allocations[i as int] == self.allocations[i as int]@);
                self.allocations[i].compute_fits(ptr)
            },
            None => true,
        }
    }

    /// Whether thread `tid` has been seen.
    pub fn has_thread(&self, tid: u64) -> (r: bool)
        ensures
            r == self@.threads.contains_key(tid),
    {
        self.threads.contains_key(&tid)
    }

    /// Whether thread `tid` has a launch configured (a thread not seen yet has none).
    pub fn thread_configured(&self, tid: u64) -> (r: bool)
        ensures
            r == self@.thread_or_fresh(tid).valid,
    {
        match self.threads.get(&tid) {
            Some(t) => t.configured_call.valid,
            None => false,
        }
    }

    /// Takes thread `tid` out of the state, or a fresh thread if there is none.
    pub fn take_thread(&mut self, tid: u64) -> (t: Thread)
        ensures
            t@ == old(self)@.thread_or_fresh(tid),
            final(self)@ == (StateModel { threads: old(self)@.threads.remove(tid), ..old(self)@ }),
    {
        let t = match self.threads.remove(&tid) {
            Some(t) => t,
            None => Thread::new(),
        };
        proof {
            assert(self@.threads =~= old(self)@.threads.remove(tid));
        }
        t
    }

    /// Puts thread `tid` back into the state.
    pub fn put_thread(&mut self, tid: u64, t: Thread)
        ensures
            final(self)@ == (StateModel { threads: old(self)@.threads.insert(tid, t@), ..old(self)@ }),
    {
        let ghost tm = t@;
        self.threads.insert(tid, t);
        proof {
            assert(self@.threads =~= old(self)@.threads.insert(tid, tm));
        }
    }

    /// The arguments of the launch that thread `tid` has configured; the thread must exist.
    pub fn thread_args(&self, tid: u64) -> (args: Vec<u64>)
        requires
            self@.threads.contains_key(tid),
        ensures
            args@ == self@.threads[tid].args,
    {
        let t = self.threads.get(&tid).unwrap();
        t.configured_call.args.clone()
    }
}

/// Allocations with the same places and sizes have the same first holder of any address.
proof fn lemma_first_holding_same_places(a: Seq<AllocationModel>, b: Seq<AllocationModel>, addr: u64)
    requires
        a.len() == b.len(),
        forall|j: int| 0 <= j < a.len() ==> (#[trigger] a[j]).pos == b[j].pos && a[j].size == b[j].size,
    ensures
        first_holding(a, addr) == first_holding(b, addr),
{
    assert forall|i: int| is_first_holding(a, addr, i) <==> is_first_holding(b, addr, i) by {
        if is_first_holding(a, addr, i) {
            assert forall|j: int| 0 <= j < i implies !(#[trigger] b[j]).holds(addr) by {
                assert(!a[j].holds(addr));
            }
        }
        if is_first_holding(b, addr, i) {
            assert forall|j: int| 0 <= j < i implies !(#[trigger] a[j]).holds(addr) by {
                assert(!b[j].holds(addr));
            }
        }
    }
    if exists|i: int| is_first_holding(a, addr, i) {
        let i1 = choose|i: int| is_first_holding(a, addr, i);
        let i2 = choose|i: int| is_first_holding(b, addr, i);
        assert(is_first_holding(b, addr, i1));
        if i1 < i2 {
            assert(!b[i1].holds(addr));
        } else if i2 < i1 {
            assert(!b[i2].holds(addr));
        }
    }
}

/// A kernel argument finds the value a copy wrote at its address: after `size` bytes
/// are written at `ptr` into an allocation, finding `ptr` gives back that value, and
/// the value rewritten with one more modification.
pub proof fn lemma_find_after_update(s: StateModel, id: u64, ptr: u64, size: u64)
    requires
        s.wf(),
        s.can_update(ptr, size),
        s.updated_value(id, ptr, size) is Some,
    ensures
        ({
            let v = s.updated_value(id, ptr, size)->0;
            s.update(id, ptr, size).found_values(ptr) == Some(
                (v, Value { times_modified: (v.times_modified + 1) as u64, ..v }),
            )
        }),
{
    let i = first_holding(s.allocations, ptr)->0;
    let s2 = s.update(id, ptr, size);
    lemma_first_holding_same_places(s.allocations, s2.allocations, ptr);
    assert(s2.allocations[i].values.contains_key(ptr));
}

/// Adding two allocations at the same address keeps the first: the state holds at
/// most one allocation per address.
pub proof fn lemma_add_allocation_same_address(s: StateModel, a: AllocationModel, b: AllocationModel)
    requires
        s.wf(),
        a.pos == b.pos,
    ensures
        s.add_allocation(a).add_allocation(b) == s.add_allocation(a),
{
    let s1 = s.add_allocation(a);
    if !exists|j: int| 0 <= j < s.allocations.len() && (#[trigger] s.allocations[j]).pos == a.pos {
        lemma_insertion_index_exists(s.allocations, a.pos);
        let i = choose|i: int| is_insertion_index(s.allocations, a.pos, i);
        assert(s1.allocations[i].pos == b.pos);
    }
}

/// Among allocations ordered by address, none of them at `pos`, there is a place for
/// an allocation at `pos`.
proof fn lemma_insertion_index_exists(allocs: Seq<AllocationModel>, pos: u64)
    requires
        forall|i: int, j: int| 0 <= i < j < allocs.len() ==> (#[trigger] allocs[i]).pos < (#[trigger] allocs[j]).pos,
        forall|j: int| 0 <= j < allocs.len() ==> (#[trigger] allocs[j]).pos != pos,
    ensures
        exists|i: int| is_insertion_index(allocs, pos, i),
    decreases allocs.len(),
{
    if allocs.len() == 0 {
        assert(is_insertion_index(allocs, pos, 0));
    } else {
        let rest = allocs.drop_last();
        assert forall|j: int| 0 <= j < rest.len() implies (#[trigger] rest[j]).pos != pos by {
            assert(rest[j] == allocs[j]);
        }
        lemma_insertion_index_exists(rest, pos);
        let i = choose|i: int| is_insertion_index(rest, pos, i);
        let n = allocs.len() - 1;
        if allocs[n].pos < pos {
            assert forall|j: int| 0 <= j < allocs.len() implies (#[trigger] allocs[j]).pos < pos by {
                if j < n {
                    assert(allocs[j].pos < allocs[n].pos);
                }
            }
            assert(is_insertion_index(allocs, pos, allocs.len() as int));
        } else {
            assert forall|j: int| 0 <= j < i implies (#[trigger] allocs[j]).pos < pos by {
                assert(rest[j] == allocs[j]);
            }
            assert forall|j: int| i <= j < allocs.len() implies (#[trigger] allocs[j]).pos > pos by {
                if j < n {
                    assert(rest[j] == allocs[j]);
                }
            }
            assert(is_insertion_index(allocs, pos, i));
        }
    }
}

/// Some allocation holds `addr` exactly when a first one, in address order, does.
proof fn lemma_first_holding_exists(allocs: Seq<AllocationModel>, addr: u64)
    ensures
        first_holding(allocs, addr) is Some <==> exists|i: int| 0 <= i < allocs.len() && (#[trigger] allocs[i]).holds(addr),
        first_holding(allocs, addr) matches Some(i) ==> 0 <= i < allocs.len() && allocs[i].holds(addr),
    decreases allocs.len(),
{
    if allocs.len() > 0 {
        let p = allocs.drop_last();
        lemma_first_holding_exists(p, addr);
        if exists|i: int| 0 <= i < p.len() && (#[trigger] p[i]).holds(addr) {
            let k = choose|k: int| is_first_holding(p, addr, k);
            assert(is_first_holding(allocs, addr, k)) by {
                assert forall|j: int| 0 <= j < k implies !(#[trigger] allocs[j]).holds(addr) by {
                    assert(allocs[j] == p[j]);
                }
                assert(allocs[k] == p[k]);
            }
        } else if allocs.last().holds(addr) {
            assert(is_first_holding(allocs, addr, allocs.len() - 1)) by {
                assert forall|j: int| 0 <= j < allocs.len() - 1 implies !(#[trigger] allocs[j]).holds(addr) by {
                    assert(allocs[j] == p[j]);
                }
            }
        } else {
            assert forall|i: int| 0 <= i < allocs.len() implies !(#[trigger] allocs[i]).holds(addr) by {
                if i < allocs.len() - 1 {
                    assert(allocs[i] == p[i]);
                }
            }
        }
    }
}

/// Writing `size` bytes at `start` in call `id` gives a value exactly when an
/// allocation holds `start`; the value has that call, address and size, and the first
/// allocation holding `start` stores it at `start`. The allocations keep their number,
/// places and sizes.
pub proof fn lemma_update_records_the_write(s: StateModel, id: u64, start: u64, size: u64)
    ensures
        s.updated_value(id, start, size) is Some <==> exists|i: int| 0 <= i < s.allocations.len()
            && (#[trigger] s.allocations[i]).holds(start),
        s.updated_value(id, start, size) matches Some(v) ==> v.id == id && v.ptr == start && v.size == size,
        s.updated_value(id, start, size) matches Some(v) ==> exists|i: int| 0 <= i < s.allocations.len()
            && (#[trigger] s.allocations[i]).holds(start)
            && s.update(id, start, size).allocations[i].values.contains_key(start)
            && s.update(id, start, size).allocations[i].values[start] == v,
        s.update(id, start, size).allocations.len() == s.allocations.len(),
        forall|j: int| 0 <= j < s.allocations.len() ==> (#[trigger] s.update(id, start, size).allocations[j]).pos
            == s.allocations[j].pos && s.update(id, start, size).allocations[j].size == s.allocations[j].size,
        s.update(id, start, size).threads == s.threads,
        s.update(id, start, size).host_pointers == s.host_pointers,
        s.update(id, start, size).host_value == s.host_value,
{
    lemma_first_holding_exists(s.allocations, start);
    if let Some(i) = first_holding(s.allocations, start) {
        lemma_occupy_records_the_write(s.allocations[i], id, start, size);
        let u = s.update(id, start, size);
        assert forall|j: int| 0 <= j < s.allocations.len() implies (#[trigger] u.allocations[j]).pos
            == s.allocations[j].pos && u.allocations[j].size == s.allocations[j].size by {
            if j == i {
                lemma_occupy_records_the_write(s.allocations[i], id, start, size);
            }
        }
        assert(u.allocations[i].values.contains_key(start));
    }
}

} // verus!
