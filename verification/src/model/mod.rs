//! Plain records of the profiler's object model: allocations, API calls and values.
pub mod allocation;
pub mod api;
pub mod value;
