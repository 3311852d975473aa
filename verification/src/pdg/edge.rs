use vstd::prelude::*;

verus! {

/// Identifies a transfer edge.
#[derive(Clone, Copy, PartialEq, Eq, Structural, Debug)]
pub struct TransferS {
    pub id: usize,
}

/// Identifies a compute edge.
#[derive(Clone, Copy, PartialEq, Eq, Structural, Debug)]
pub struct ComputeS {
    pub id: usize,
}

impl TransferS {
    pub fn new() -> (r: TransferS)
        ensures
            r.id == 0,
    {
        TransferS { id: 0 }
    }
}

impl ComputeS {
    pub fn new() -> (r: ComputeS)
        ensures
            r.id == 0,
    {
        ComputeS { id: 0 }
    }
}

/// An edge of the dependence graph: a computation or a transfer.
pub enum Edge<'a> {
    Compute(&'a ComputeS),
    Transfer(&'a TransferS),
}

} // verus!
