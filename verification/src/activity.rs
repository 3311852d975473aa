use vstd::prelude::*;

verus! {

/// A kernel execution reported by the profiler's activity API.
pub struct Kernel3S {
    pub correlation_id: u64,
    pub cuda_device_id: u64,
    pub dur: u64,
    pub start: u64,
    pub stream_id: u64,
    pub completed: u64,
    pub name: String,
}

/// A memory copy reported by the profiler's activity API.
pub struct MemcpyS {
    pub correlation_id: u64,
    pub cuda_device_id: u64,
    pub dur: u64,
    pub start: u64,
    pub stream_id: u64,
    pub src_kind: String,
    pub dst_kind: String,
    pub cuda_memcpy_kind: String,
    pub runtime_correlation_id: u64,
}

/// An activity record.
pub enum Record {
    Kernel3(Kernel3S),
    Memcpy(MemcpyS),
}

} // verus!
