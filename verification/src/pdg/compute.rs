use vstd::prelude::*;
use std::cmp::Ordering;
use crate::pdg::transfer::start_order;

verus! {

/// A kernel computation: an edge of the dependence graph from a value a kernel read
/// to the value it rewrote. Times are nanoseconds; `completed` is 1 for a finished
/// computation.
pub struct Compute {
    pub correlation_id: u64,
    pub cuda_device_id: u64,
    pub kind: String,
    pub name: String,
    pub start: u64,
    pub duration: u64,
    pub completed: u64,
    pub stream_id: u64,
}

/// A computation as mathematical values.
pub ghost struct ComputeModel {
    pub correlation_id: u64,
    pub cuda_device_id: u64,
    pub kind: Seq<char>,
    pub name: Seq<char>,
    pub start: u64,
    pub duration: u64,
    pub completed: u64,
    pub stream_id: u64,
}

impl View for Compute {
    type V = ComputeModel;

    open spec fn view(&self) -> ComputeModel {
        ComputeModel {
            correlation_id: self.correlation_id,
            cuda_device_id: self.cuda_device_id,
            kind: self.kind@,
            name: self.name@,
            start: self.start,
            duration: self.duration,
            completed: self.completed,
            stream_id: self.stream_id,
        }
    }
}

impl Compute {
    /// Orders two computations by their start time.
    pub fn cmp_start(&self, other: &Compute) -> (r: Ordering)
        ensures
            r == start_order(self.start, other.start),
    {
        if self.start == other.start {
            return Ordering::Equal;
        } else if self.start < other.start {
            return Ordering::Less;
        } else {
            return Ordering::Greater;
        }
    }
}

} // verus!
