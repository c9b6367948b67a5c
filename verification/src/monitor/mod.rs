//! The records kept about the node and its worker processes.

pub mod probe;
pub mod stats;
pub mod store;
