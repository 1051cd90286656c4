//! Property graph engine core: graph algorithms, correlation graphs,
//! indexes, caches, counters and monitoring, with their behaviour stated as
//! contracts and proved.

pub mod csv;
pub mod error;
pub mod graph_algorithms;
pub mod graph_comparison;
pub mod graph_construction;
pub mod graph_correlation;
pub mod graph_simple;
pub mod id_map;
pub mod index;
pub mod laws;
pub mod loader;
pub mod memory;
pub mod memory_management;
pub mod monitoring;
pub mod procedures;
pub mod status;
pub mod str_map;
pub mod text;
pub mod time;

pub use error::Error;
pub use status::{EngineStats, HealthState, HealthStatus};
