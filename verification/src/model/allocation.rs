use vstd::prelude::*;

verus! {

/// An allocation as the profiler records it: its identifier, address and size.
pub struct Allocation {
    pub id: u64,
    pub pos: u64,
    pub size: u64,
}

} // verus!
