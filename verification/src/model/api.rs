use vstd::prelude::*;

verus! {

/// An API call as the profiler records it, with the values it read and wrote.
pub struct Api {
    pub correlation_id: u64,
    pub device: u64,
    pub id: u64,
    pub inputs: Vec<u64>,
    pub outputs: Vec<u64>,
    pub name: String,
    pub symbolname: String,
    pub wall_end: u64,
    pub wall_start: u64,
}

} // verus!
