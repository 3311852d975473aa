pub mod compute;
pub mod edge;
pub mod laws;
pub mod node;
pub mod paths;
pub mod pdg;
pub mod replay;
pub mod shape;
pub mod transfer;
