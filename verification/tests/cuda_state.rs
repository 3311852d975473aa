use heteroprof::cuda::allocation::{AddressSpace, Allocation};
use heteroprof::cuda::configured_call::ConfiguredCall;
use heteroprof::cuda::value::Value;
use heteroprof::cuda::{State, Thread};

#[test]
fn configured_call_lifecycle() {
    let mut call = ConfiguredCall::new();
    assert!(call.args.is_empty());
    assert!(!call.valid);
    call.start();
    assert!(call.valid);
    call.add_arg(7);
    call.add_arg(9);
    assert_eq!(call.args, vec![7, 9]);
    call.finish();
    assert!(call.args.is_empty());
    assert!(!call.valid);
}

#[test]
fn allocation_contains_its_range_only() {
    let a = Allocation::new(0, 100, 10, AddressSpace::UVA);
    assert!(!a.contains(99));
    assert!(a.contains(100));
    assert!(a.contains(109));
    assert!(!a.contains(110));
    assert_eq!(a.old_values.len(), 1);
    assert!(a.values.is_empty());
}

#[test]
fn value_occupied_fresh_and_overlapping() {
    let mut a = Allocation::new(0, 0, 1000, AddressSpace::UVA);
    // Nothing occupied there but address 0: a new value that was never modified.
    let v = a.value_occupied(5, 100, 8);
    assert_eq!(v, Value { id: 5, ptr: 100, size: 8, times_modified: 0 });
    assert_eq!(v.times_modified, 0);
    assert_eq!(a.values.get(&100).unwrap().id, 5);
    // A write that meets the occupied address 0 counts as one more modification.
    let w = a.value_occupied(6, 0, 4);
    assert_eq!(w.times_modified, 1);
    assert_eq!(w.ptr, 0);
    assert_eq!(a.values.len(), 2);
}

#[test]
fn compute_value_rewrites_and_keeps_history() {
    let mut a = Allocation::new(0, 0, 1000, AddressSpace::UVA);
    a.value_occupied(5, 100, 8);
    let (before, after) = a.compute_value(100).unwrap();
    assert_eq!(before.times_modified, 0);
    assert_eq!(after.times_modified, 1);
    assert_eq!(after.id, 5);
    assert_eq!(a.old_values.len(), 2);
    assert_eq!(a.old_values[1].times_modified, 0);
    let (_, again) = a.compute_value(100).unwrap();
    assert_eq!(again.times_modified, 2);
    assert!(a.compute_value(104).is_none());
    assert_eq!(a.old_values.len(), 3);
}

#[test]
fn state_starts_empty_and_host_is_one_value() {
    let mut s = State::new();
    assert!(s.allocations.is_empty());
    assert!(s.threads.is_empty());
    let h = s.add_host_pointer(42).unwrap();
    assert_eq!(h.id, 0);
    assert!(s.host_pointers.contains(&42));
    let h2 = s.add_host_pointer(43).unwrap();
    assert_eq!(h, h2);
}

#[test]
fn allocations_stay_ordered_and_keep_first_at_same_address() {
    let mut s = State::new();
    s.add_allocation(Allocation::new(0, 500, 10, AddressSpace::UVA));
    s.add_allocation(Allocation::new(0, 100, 10, AddressSpace::UVA));
    s.add_allocation(Allocation::new(0, 300, 10, AddressSpace::UVA));
    s.add_allocation(Allocation::new(9, 300, 99, AddressSpace::HOST));
    let positions: Vec<u64> = s.allocations.iter().map(|a| a.pos).collect();
    assert_eq!(positions, vec![100, 300, 500]);
    assert_eq!(s.allocations[1].size, 10);
    assert_eq!(s.allocations[1].id, 0);
}

#[test]
fn update_then_find_gives_the_written_value() {
    let mut s = State::new();
    s.add_allocation(Allocation::new(0, 1000, 100, AddressSpace::UVA));
    assert!(s.update_allocations(1, 5000, 8).is_none());
    let v = s.update_allocations(7, 1010, 8).unwrap();
    assert_eq!(v, Value { id: 7, ptr: 1010, size: 8, times_modified: 0 });
    let (before, after) = s.find_argument_values(1010).unwrap();
    assert_eq!(before.times_modified, 0);
    assert_eq!(after.times_modified, 1);
    assert_eq!(before.id, 7);
    // An address inside an allocation with no value starting there finds nothing.
    assert!(s.find_argument_values(1011).is_none());
    // An address outside every allocation finds nothing.
    assert!(s.find_argument_values(10).is_none());
    let w = s.setup_arg_update_allocations(8, 1020, 4).unwrap();
    assert_eq!(w.id, 8);
    assert_eq!(w.times_modified, 0);
}

#[test]
fn threads_are_created_on_demand() {
    let mut s = State::new();
    let mut t = s.take_thread(3);
    assert!(!t.configured_call.valid);
    assert_eq!(t.current_device, 0);
    t.configured_call.start();
    t.configured_call.add_arg(11);
    s.put_thread(3, t);
    assert_eq!(s.thread_args(3), vec![11]);
    let fresh = Thread::new();
    assert!(fresh.configured_call.args.is_empty());
}

#[test]
fn start_then_finish_gives_back_a_new_configuration() {
    let mut call = ConfiguredCall::new();
    call.start();
    call.finish();
    let fresh = ConfiguredCall::new();
    assert_eq!(call.args, fresh.args);
    assert_eq!(call.valid, fresh.valid);
}
