//! Sets of `u64` kept as ordered runs of inclusive intervals, from the `intervallum`
//! crate (imported under its library name `interval`).
use vstd::prelude::*;
use interval::interval_set::{IntervalSet, ToIntervalSet};
use gcollections::ops::{Bounded, Complement, Intersection, IsEmpty, Union};

verus! {

/// An `IntervalSet<u64>` of the `intervallum` crate. Verus does not take a declaration
/// of that type (its parameter is bounded by a trait of the crate), so the set is held
/// here, out of Verus's sight; `interval_members` names what it holds.
#[verifier::external_body]
#[derive(Debug)]
pub struct IntervalSet64 {
    set: IntervalSet<u64>,
}

/// The integers that an interval set holds.
pub uninterp spec fn interval_members(s: IntervalSet64) -> Set<u64>;

/// The largest bound that the crate accepts for `u64`: `u64::MAX - 1`.
pub open spec fn interval_bound_max() -> u64 {
    (u64::MAX - 1) as u64
}

/// The integers of `lo..=hi`.
pub open spec fn closed_range(lo: u64, hi: u64) -> Set<u64> {
    Set::new(|x: u64| lo <= x <= hi)
}

/// `vec![(lo, hi)].to_interval_set()`: the set `lo..=hi`. The crate asserts (in debug
/// builds) that an interval is not empty and that its upper bound is at most
/// `u64::MAX - 1`; both are left out by `requires`.
#[verifier::external_body]
pub fn interval_set_of(lo: u64, hi: u64) -> (s: IntervalSet64)
    requires
        lo <= hi,
        hi <= interval_bound_max(),
    ensures
        interval_members(s) == closed_range(lo, hi),
{
    IntervalSet64 { set: vec![(lo, hi)].to_interval_set() }
}

/// `Intersection::intersection` of two interval sets: the integers in both.
#[verifier::external_body]
pub fn interval_intersection(a: &IntervalSet64, b: &IntervalSet64) -> (s: IntervalSet64)
    ensures
        interval_members(s) == interval_members(*a).intersect(interval_members(*b)),
{
    IntervalSet64 { set: a.set.intersection(&b.set) }
}

/// `Union::union` of two interval sets: the integers in either.
#[verifier::external_body]
pub fn interval_union(a: &IntervalSet64, b: &IntervalSet64) -> (s: IntervalSet64)
    ensures
        interval_members(s) == interval_members(*a).union(interval_members(*b)),
{
    IntervalSet64 { set: a.set.union(&b.set) }
}

/// `Complement::complement`: the integers of `0..=u64::MAX - 1` that the set does not hold.
#[verifier::external_body]
pub fn interval_complement(a: &IntervalSet64) -> (s: IntervalSet64)
    ensures
        interval_members(s) == closed_range(0, interval_bound_max()).difference(interval_members(*a)),
{
    IntervalSet64 { set: a.set.complement() }
}

/// `IsEmpty::is_empty`: whether the set holds no integer.
#[verifier::external_body]
pub fn interval_is_empty(a: &IntervalSet64) -> (r: bool)
    ensures
        r == (interval_members(*a) == Set::<u64>::empty()),
{
    a.set.is_empty()
}

/// `Bounded::lower`: the least integer of a set that is not empty (the crate asserts
/// that it is not, in debug builds).
#[verifier::external_body]
pub fn interval_lower(a: &IntervalSet64) -> (r: u64)
    requires
        interval_members(*a) != Set::<u64>::empty(),
    ensures
        interval_members(*a).contains(r),
        forall|x: u64| #[trigger] interval_members(*a).contains(x) ==> r <= x,
{
    a.set.lower()
}

/// `Bounded::upper`: the greatest integer of a set that is not empty (the crate asserts
/// that it is not, in debug builds).
#[verifier::external_body]
pub fn interval_upper(a: &IntervalSet64) -> (r: u64)
    requires
        interval_members(*a) != Set::<u64>::empty(),
    ensures
        interval_members(*a).contains(r),
        forall|x: u64| #[trigger] interval_members(*a).contains(x) ==> x <= r,
{
    a.set.upper()
}

/// `d` lists the maximal runs of consecutive integers of `s`, in increasing order, each
/// as (least, greatest): every integer of `s` lies in one run, and two runs are
/// separated by at least one integer that `s` does not hold.
pub open spec fn is_run_list(s: Set<u64>, d: Seq<(u64, u64)>) -> bool {
    &&& forall|i: int| 0 <= i < d.len() ==> (#[trigger] d[i]).0 <= d[i].1
    &&& forall|i: int, j: int| 0 <= i < j < d.len() ==> (#[trigger] d[i]).1 + 1 < (#[trigger] d[j]).0
    &&& forall|x: u64| #[trigger] s.contains(x) <==> exists|i: int| 0 <= i < d.len() && (#[trigger] d[i]).0 <= x <= d[i].1
}

/// The intervals of the set, as (lower, upper) pairs: the crate keeps them ordered
/// and never adjacent or overlapping (its `push` asserts this in debug builds), so
/// they are the maximal runs of the set.
#[verifier::external_body]
pub fn interval_runs(a: &IntervalSet64) -> (r: Vec<(u64, u64)>)
    ensures
        is_run_list(interval_members(*a), r@),
{
    a.set.iter().map(|i| (i.lower(), i.upper())).collect()
}

} // verus!
