use vstd::prelude::*;

verus! {

/// A `cublasCreate` call.
pub struct CublasCreateS {
    pub calling_tid: u64,
    pub wall_start: u64,
    pub wall_end: u64,
    pub id: u64,
    pub context_uid: u64,
    pub symbol_name: String,
    pub handle: u64,
    pub input_vector: Vec<u64>,
    pub output_vector: Vec<u64>,
}

/// A `cublasDestroy` call.
pub struct CublasDestroyS {
    pub calling_tid: u64,
    pub wall_start: u64,
    pub wall_end: u64,
    pub id: u64,
    pub context_uid: u64,
    pub symbol_name: String,
    pub handle: u64,
    pub input_vector: Vec<u64>,
    pub output_vector: Vec<u64>,
}

/// A `cublasDgemm` call.
pub struct CublasDgemmS {
    pub calling_tid: u64,
    pub wall_start: u64,
    pub wall_end: u64,
    pub id: u64,
    pub context_uid: u64,
    pub symbol_name: String,
    pub handle: u64,
    pub input_vector: Vec<u64>,
    pub output_vector: Vec<u64>,
}

/// A `cublasDgemv` call.
pub struct CublasDgemvS {
    pub calling_tid: u64,
    pub wall_start: u64,
    pub wall_end: u64,
    pub id: u64,
    pub context_uid: u64,
    pub symbol_name: String,
    pub handle: u64,
    pub input_vector: Vec<u64>,
    pub output_vector: Vec<u64>,
}

/// A `cublasSasum` call.
pub struct CublasSasumS {
    pub calling_tid: u64,
    pub wall_start: u64,
    pub wall_end: u64,
    pub id: u64,
    pub context_uid: u64,
    pub symbol_name: String,
    pub handle: u64,
    pub input_vector: Vec<u64>,
    pub output_vector: Vec<u64>,
}

/// A `cublasSaxpy` call.
pub struct CublasSaxpyS {
    pub calling_tid: u64,
    pub wall_start: u64,
    pub wall_end: u64,
    pub id: u64,
    pub context_uid: u64,
    pub symbol_name: String,
    pub handle: u64,
    pub input_vector: Vec<u64>,
    pub output_vector: Vec<u64>,
}

/// A `cublasSdot` call.
pub struct CublasSdotS {
    pub calling_tid: u64,
    pub wall_start: u64,
    pub wall_end: u64,
    pub id: u64,
    pub context_uid: u64,
    pub symbol_name: String,
    pub handle: u64,
    pub input_vector: Vec<u64>,
    pub output_vector: Vec<u64>,
}

/// A `cublasSgemm` call.
pub struct CublasSgemmS {
    pub calling_tid: u64,
    pub wall_start: u64,
    pub wall_end: u64,
    pub id: u64,
    pub context_uid: u64,
    pub symbol_name: String,
    pub handle: u64,
    pub input_vector: Vec<u64>,
    pub output_vector: Vec<u64>,
}

/// A `cublasSgemv` call.
pub struct CublasSgemvS {
    pub calling_tid: u64,
    pub wall_start: u64,
    pub wall_end: u64,
    pub id: u64,
    pub context_uid: u64,
    pub symbol_name: String,
    pub handle: u64,
    pub input_vector: Vec<u64>,
    pub output_vector: Vec<u64>,
}

/// A `cublasSscal` call.
pub struct CublasSscalS {
    pub calling_tid: u64,
    pub wall_start: u64,
    pub wall_end: u64,
    pub id: u64,
    pub context_uid: u64,
    pub symbol_name: String,
    pub handle: u64,
    pub input_vector: Vec<u64>,
    pub output_vector: Vec<u64>,
}

/// A cuBLAS library call.
pub enum Record {
    CublasCreate(CublasCreateS),
    CublasDestroy(CublasDestroyS),
    CublasDgemm(CublasDgemmS),
    CublasDgemv(CublasDgemvS),
    CublasSasum(CublasSasumS),
    CublasSaxpy(CublasSaxpyS),
    CublasSdot(CublasSdotS),
    CublasSgemm(CublasSgemmS),
    CublasSgemv(CublasSgemvS),
    CublasSscal(CublasSscalS),
}

} // verus!
