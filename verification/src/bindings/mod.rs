pub mod intervals;
pub mod graph;
pub mod queue;
