//! The scheduler state shared by all algorithms, and the three algorithms.
pub mod model;
pub mod process_manager;
pub mod invariants;
pub mod laws;
pub mod order_laws;

pub mod round_robin;
pub use round_robin::RoundRobin;

pub mod priority_queue;
pub use priority_queue::PriorityQueue;

pub mod cfs;
pub use cfs::Cfs;
