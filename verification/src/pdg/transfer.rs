use vstd::prelude::*;
use std::cmp::Ordering;

verus! {

/// A memory transfer: an edge of the dependence graph from the value copied to the
/// value written.
pub struct Transfer {
    pub correlation_id: u64,
    pub cuda_device_id: u64,
    pub kind: String,
    pub start: u64,
    pub dur: u64,
    pub stream_id: u64,
}

/// A transfer as mathematical values.
pub ghost struct TransferModel {
    pub correlation_id: u64,
    pub cuda_device_id: u64,
    pub kind: Seq<char>,
    pub start: u64,
    pub dur: u64,
    pub stream_id: u64,
}

impl View for Transfer {
    type V = TransferModel;

    open spec fn view(&self) -> TransferModel {
        TransferModel {
            correlation_id: self.correlation_id,
            cuda_device_id: self.cuda_device_id,
            kind: self.kind@,
            start: self.start,
            dur: self.dur,
            stream_id: self.stream_id,
        }
    }
}

impl Transfer {
    /// Orders two transfers by their start time.
    pub fn cmp_start(&self, other: &Transfer) -> (r: Ordering)
        ensures
            r == start_order(self.start, other.start),
    {
        if self.start == other.start {
            return Ordering::Equal;
        } else if self.start < other.start {
            return Ordering::Less;
        } else {
            return Ordering::Greater;
        }
    }
}

/// How two start times compare.
pub open spec fn start_order(a: u64, b: u64) -> Ordering {
    if a == b {
        Ordering::Equal
    } else if a < b {
        Ordering::Less
    } else {
        Ordering::Greater
    }
}

/// Ordering by start time is a total order: equal only for equal starts, and the
/// order of two starts read the other way round is reversed.
pub proof fn lemma_start_order_total(a: u64, b: u64, c: u64)
    ensures
        (start_order(a, b) == Ordering::Equal) == (a == b),
        (start_order(a, b) == Ordering::Less) == (start_order(b, a) == Ordering::Greater),
        start_order(a, b) == Ordering::Less && start_order(b, c) == Ordering::Less ==> start_order(a, c) == Ordering::Less,
{
}

} // verus!
