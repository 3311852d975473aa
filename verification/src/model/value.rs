use vstd::prelude::*;

verus! {

/// A value as the profiler records it: its identifier, address and size.
pub struct Value {
    pub id: u64,
    pub pos: u64,
    pub size: u64,
}

} // verus!
