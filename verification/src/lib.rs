//! Topology of a network scan as a deduplicated host graph, with the
//! selection state of an interactive viewer on top of it.

pub mod address;
pub mod error;
pub mod graph;
pub mod host;
pub mod hostname;
pub mod index;
pub mod laws;
pub mod os;
pub mod picker;
pub mod record;
pub mod simulation;
pub mod state;
pub mod text;
pub mod topology;
