use vstd::prelude::*;
use crate::cuda::dim3::Dim3;

verus! {

/// `cudaMalloc`: `size` bytes of device memory allocated at `ptr`.
pub struct CudaMallocS {
    pub calling_tid: u64,
    pub wall_start: u64,
    pub wall_end: u64,
    pub id: u64,
    pub context_uid: u64,
    pub correlation_id: u64,
    pub symbol_name: String,
    pub ptr: u64,
    pub size: u64,
}

/// `cudaMemcpy`: `count` bytes copied from `src` to `dst`; `cuda_memcpy_kind` is 0 for
/// host to host, 1 for host to device, 2 for device to host, 3 for device to device.
pub struct CudaMemcpyS {
    pub calling_tid: u64,
    pub wall_start: u64,
    pub wall_end: u64,
    pub id: u64,
    pub context_uid: u64,
    pub correlation_id: u64,
    pub symbol_name: String,
    pub src: u64,
    pub count: u64,
    pub dst: u64,
    pub cuda_memcpy_kind: u64,
}

/// `cudaSetupArgument`: the argument `arg` of `size` bytes at `offset` of the next launch.
pub struct CudaSetupArgumentS {
    pub calling_tid: u64,
    pub wall_start: u64,
    pub wall_end: u64,
    pub id: u64,
    pub context_uid: u64,
    pub correlation_id: u64,
    pub symbol_name: String,
    pub offset: u64,
    pub size: u64,
    pub arg: u64,
}

/// `cudaConfigureCall`: the grid and block shape of the next launch.
pub struct CudaConfigureCallS {
    pub calling_tid: u64,
    pub wall_start: u64,
    pub wall_end: u64,
    pub id: u64,
    pub context_uid: u64,
    pub correlation_id: u64,
    pub symbol_name: String,
    pub grid_dim: Dim3<u64>,
    pub block_dim: Dim3<u64>,
    pub shared_mem: u64,
    pub stream: u64,
}

/// `cudaLaunch`: the configured kernel `func` is launched.
pub struct CudaLaunchS {
    pub calling_tid: u64,
    pub wall_start: u64,
    pub wall_end: u64,
    pub id: u64,
    pub context_uid: u64,
    pub correlation_id: u64,
    pub symbol_name: String,
    pub func: u64,
    pub params: Vec<u64>,
}

/// A CUDA runtime call seen by the profiler's callbacks.
pub enum Record {
    CudaMalloc(CudaMallocS),
    CudaMemcpy(CudaMemcpyS),
    CudaSetupArgument(CudaSetupArgumentS),
    CudaConfigureCall(CudaConfigureCallS),
    CudaLaunch(CudaLaunchS),
}

} // verus!
