//! Builds a program dependence graph out of the records of a CUDA profiling trace:
//! allocations and the values written into them are tracked per address, and every
//! memory transfer or kernel computation becomes an edge between values.
use vstd::prelude::*;

pub mod activity;
pub mod bindings;
pub mod callback;
pub mod cublas;
pub mod cuda;
pub mod cudnn;
pub mod document;
pub mod model;
pub mod pdg;
pub mod statistics;

verus! {

} // verus!

