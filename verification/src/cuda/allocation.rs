use vstd::prelude::*;
use std::collections::HashMap;
use crate::bindings::intervals::{
    closed_range, interval_bound_max, interval_intersection, interval_is_empty, interval_lower,
    interval_members, interval_set_of, interval_union, interval_upper, IntervalSet64,
};
use crate::cuda::value::Value;

verus! {

broadcast use vstd::std_specs::hash::group_hash_axioms;

#[derive(PartialEq, Eq, Structural, Clone, Copy, Debug)]
pub enum AddressSpace {
    UVA,
    HOST,
}

/// A block of memory `pos..pos + size` and the values written into it, keyed by the
/// address they start at. `old_values` keeps the values as they were before each
/// computation that rewrote them.
#[derive(Debug)]
pub struct Allocation {
    pub id: u64,
    pub pos: u64,
    pub size: u64,
    pub address_space: AddressSpace,
    pub space_occupied: IntervalSet64,
    pub values: HashMap<u64, Value>,
    pub old_values: Vec<Value>,
}

/// What an allocation holds, as mathematical values.
#[verifier::ext_equal]
pub ghost struct AllocationModel {
    pub id: u64,
    pub pos: u64,
    pub size: u64,
    pub address_space: AddressSpace,
    pub occupied: Set<u64>,
    pub values: Map<u64, Value>,
    pub old_values: Seq<Value>,
}

impl View for Allocation {
    type V = AllocationModel;

    open spec fn view(&self) -> AllocationModel {
        AllocationModel {
            id: self.id,
            pos: self.pos,
            size: self.size,
            address_space: self.address_space,
            occupied: interval_members(self.space_occupied),
            values: self.values@,
            old_values: self.old_values@,
        }
    }
}

/// The value that stands for "nothing written yet".
pub open spec fn blank_value() -> Value {
    Value { id: 0, ptr: 0, size: 0, times_modified: 0 }
}

/// The greatest `times_modified` among the values that start at an address of
/// `lo..hi`, or 0 when there is none.
pub open spec fn highest_modified(values: Map<u64, Value>, lo: int, hi: int) -> u64
    decreases hi - lo,
{
    if hi <= lo {
        0
    } else {
        let h = highest_modified(values, lo, hi - 1);
        let k = (hi - 1) as u64;
        if values.contains_key(k) && values[k].times_modified > h {
            values[k].times_modified
        } else {
            h
        }
    }
}

/// The least element of a set of addresses.
pub open spec fn set_min(s: Set<u64>) -> u64 {
    choose|m: u64| s.contains(m) && forall|x: u64| #[trigger] s.contains(x) ==> m <= x
}

/// The greatest element of a set of addresses.
pub open spec fn set_max(s: Set<u64>) -> u64 {
    choose|m: u64| s.contains(m) && forall|x: u64| #[trigger] s.contains(x) ==> x <= m
}

impl AllocationModel {
    /// A fresh allocation: nothing occupied but address 0, no values, and the blank
    /// value as its only old value.
    pub open spec fn fresh(id: u64, pos: u64, size: u64, address_space: AddressSpace) -> AllocationModel {
        AllocationModel {
            id,
            pos,
            size,
            address_space,
            occupied: closed_range(0, 0),
            values: Map::empty(),
            old_values: seq![blank_value()],
        }
    }

    /// Whether `item` lies in `pos..pos + size`.
    pub open spec fn holds(self, item: u64) -> bool {
        self.pos <= item && item < self.pos + self.size
    }

    /// The occupied addresses that the range `ptr..=ptr + size` meets.
    pub open spec fn overlap(self, ptr: u64, size: u64) -> Set<u64> {
        self.occupied.intersect(closed_range(ptr, (ptr + size) as u64))
    }

    /// How many times the value written at `ptr..=ptr + size` counts as modified: 0
    /// when the range meets no occupied address, else one more than the values that
    /// start between the least and the greatest address it meets.
    pub open spec fn modification_count(self, ptr: u64, size: u64) -> int {
        let o = self.overlap(ptr, size);
        if o == Set::<u64>::empty() {
            0
        } else {
            highest_modified(self.values, set_min(o) as int, set_max(o) as int) + 1
        }
    }

    /// The value that writing `size` bytes at `ptr` in call `id` creates.
    pub open spec fn occupied_value(self, id: u64, ptr: u64, size: u64) -> Value {
        Value { id, ptr, size, times_modified: self.modification_count(ptr, size) as u64 }
    }

    /// When `value_occupied` does not panic.
    pub open spec fn can_occupy(self, ptr: u64, size: u64) -> bool {
        &&& ptr + size <= interval_bound_max()
        &&& self.modification_count(ptr, size) <= u64::MAX
    }

    /// The allocation after writing `size` bytes at `ptr` in call `id`.
    pub open spec fn occupy(self, id: u64, ptr: u64, size: u64) -> AllocationModel {
        AllocationModel { values: self.values.insert(ptr, self.occupied_value(id, ptr, size)), ..self }
    }

    /// When `compute_value` does not panic.
    pub open spec fn can_compute(self, ptr: u64) -> bool {
        self.values.contains_key(ptr) ==> self.values[ptr].times_modified < u64::MAX
    }

    /// The value at `ptr` after one more modification.
    pub open spec fn computed_value(self, ptr: u64) -> Value {
        let v = self.values[ptr];
        Value { times_modified: (v.times_modified + 1) as u64, ..v }
    }

    /// The allocation after a computation rewrote the value that starts at `ptr`.
    pub open spec fn compute(self, ptr: u64) -> AllocationModel {
        if self.values.contains_key(ptr) {
            AllocationModel {
                values: self.values.insert(ptr, self.computed_value(ptr)),
                old_values: self.old_values.push(self.values[ptr]),
                ..self
            }
        } else {
            self
        }
    }
}

impl Allocation {
    pub fn new(temp_id: u64, temp_pos: u64, temp_size: u64, temp_addr: AddressSpace) -> (a: Allocation)
        ensures
            a@ == AllocationModel::fresh(temp_id, temp_pos, temp_size, temp_addr),
    {
        let a = Allocation {
            id: temp_id,
            pos: temp_pos,
            size: temp_size,
            address_space: temp_addr,
            space_occupied: interval_set_of(0, 0),
            values: HashMap::new(),
            old_values: vec![Value { id: 0, ptr: 0, size: 0, times_modified: 0 }],
        };
        proof {
            assert(a.old_values@ =~= seq![blank_value()]);
        }
        a
    }

    /// Whether `item` lies in the allocation.
    pub fn contains(&self, item: u64) -> (r: bool)
        requires
            self.pos + self.size <= u64::MAX,
        ensures
            r == self@.holds(item),
    {
        return (item >= self.pos) && (item < self.pos + self.size);
    }

    /// The greatest `times_modified` among the values that start in `lower..upper`.
    fn highest_between(&self, lower: u64, upper: u64) -> (r: u64)
        requires
            lower <= upper,
        ensures
            r == highest_modified(self.values@, lower as int, upper as int),
    {
        let mut highest_seen: u64 = 0;
        let mut x: u64 = lower;
        while x < upper
            invariant
                lower <= x <= upper,
                highest_seen == highest_modified(self.values@, lower as int, x as int),
            decreases upper - x,
        {
            match self.values.get(&x) {
                Some(v) => {
                    if v.times_modified > highest_seen {
                        highest_seen = v.times_modified;
                    }
                },
                None => {},
            }
            x = x + 1;
        }
        highest_seen
    }

    /// Whether `value_occupied(_, ptr, item_size)` can be called: the range ends at
    /// `u64::MAX - 1` at the latest and the new value's count of modifications fits.
    pub fn occupy_fits(&self, ptr: u64, item_size: u64) -> (r: bool)
        ensures
            r == self@.can_occupy(ptr, item_size),
    {
        if item_size > u64::MAX - 1 || ptr > u64::MAX - 1 - item_size {
            return false;
        }
        let temp_set = interval_set_of(ptr, ptr + item_size);
        let intersection = interval_intersection(&self.space_occupied, &temp_set);
        proof {
            assert(interval_members(intersection) == self@.overlap(ptr, item_size));
        }
        if interval_is_empty(&intersection) {
            true
        } else {
            let lower = interval_lower(&intersection);
            let upper = interval_upper(&intersection);
            let ghost o = interval_members(intersection);
            proof {
                assert(set_min(o) == lower);
                assert(set_max(o) == upper);
            }
            let highest_seen = self.highest_between(lower, upper);
            highest_seen < u64::MAX
        }
    }

    /// Whether `compute_value(ptr)` can be called: the value at `ptr`, if any, can be
    /// counted as modified once more.
    pub fn compute_fits(&self, ptr: u64) -> (r: bool)
        ensures
            r == self@.can_compute(ptr),
    {
        match self.values.get(&ptr) {
            Some(v) => v.times_modified < u64::MAX,
            None => true,
        }
    }

    /// Records a value of `item_size` bytes written at `ptr` by call `id`, on top of
    /// whatever value started there, and returns it.
    pub fn value_occupied(&mut self, id: u64, ptr: u64, item_size: u64) -> (v: Value)
        requires
            old(self)@.can_occupy(ptr, item_size),
        ensures
            v == old(self)@.occupied_value(id, ptr, item_size),
            final(self)@ == old(self)@.occupy(id, ptr, item_size),
    {
        let temp_set = interval_set_of(ptr, ptr + item_size);
        let intersection = interval_intersection(&self.space_occupied, &temp_set);
        proof {
            assert(interval_members(intersection) == self@.overlap(ptr, item_size));
        }
        if interval_is_empty(&intersection) {
            // The occupied set is not changed: the union is computed and dropped.
            let _ = interval_union(&self.space_occupied, &temp_set);
            let temp_val = Value { id: id, ptr: ptr, size: item_size, times_modified: 0 };
            self.values.insert(ptr, temp_val);
            temp_val
        } else {
            let lower = interval_lower(&intersection);
            let upper = interval_upper(&intersection);
            let ghost o = interval_members(intersection);
            proof {
                assert(set_min(o) == lower);
                assert(set_max(o) == upper);
            }
            let highest_seen = self.highest_between(lower, upper);
            let highest_modified = highest_seen + 1;
            let _ = interval_union(&self.space_occupied, &temp_set);
            let temp_val = Value { id: id, ptr: ptr, size: item_size, times_modified: highest_modified };
            self.values.insert(ptr, temp_val);
            temp_val
        }
    }

    /// Rewrites the value that starts at `ptr`, if there is one: the value as it was is
    /// kept among the old values, and the pair (before, after) is returned.
    pub fn compute_value(&mut self, ptr: u64) -> (r: Option<(Value, Value)>)
        requires
            old(self)@.can_compute(ptr),
        ensures
            final(self)@ == old(self)@.compute(ptr),
            r == (if old(self)@.values.contains_key(ptr) {
                Some((old(self)@.values[ptr], old(self)@.computed_value(ptr)))
            } else {
                None::<(Value, Value)>
            }),
    {
        let value = self.values.remove(&ptr);
        match value {
            Some(v) => {
                let original = v;
                let mut value_unwrapped = v;
                value_unwrapped.increment();
                self.values.insert(ptr, value_unwrapped);
                self.old_values.push(original);
                proof {
                    assert(self.values@ =~= old(self)@.values.insert(ptr, old(self)@.computed_value(ptr)));
                    assert(self@ =~= old(self)@.compute(ptr));
                }
                Some((original, value_unwrapped))
            },
            None => None,
        }
    }
}

/// Writing `size` bytes at `ptr` in call `id` creates a value with exactly that
/// call, address and size, stored at `ptr`; the values at other addresses, the
/// allocation's place and its old values are unchanged. A write that meets no
/// occupied address counts no modification.
pub proof fn lemma_occupy_records_the_write(a: AllocationModel, id: u64, ptr: u64, size: u64)
    ensures
        a.occupied_value(id, ptr, size).id == id,
        a.occupied_value(id, ptr, size).ptr == ptr,
        a.occupied_value(id, ptr, size).size == size,
        a.overlap(ptr, size) == Set::<u64>::empty() ==> a.occupied_value(id, ptr, size).times_modified == 0,
        a.occupy(id, ptr, size).values.contains_key(ptr),
        a.occupy(id, ptr, size).values[ptr] == a.occupied_value(id, ptr, size),
        forall|p: u64| p != ptr ==> #[trigger] a.occupy(id, ptr, size).values.contains_key(p) == a.values.contains_key(p),
        forall|p: u64| p != ptr && #[trigger] a.values.contains_key(p) ==> a.occupy(id, ptr, size).values[p] == a.values[p],
        a.occupy(id, ptr, size).pos == a.pos,
        a.occupy(id, ptr, size).size == a.size,
        a.occupy(id, ptr, size).old_values == a.old_values,
{
}

} // verus!
