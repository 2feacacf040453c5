//! Native channels: named listeners, connected pairs, and the flow between
//! their two ends.

pub mod fabric;
pub mod keys;
pub mod flow_laws;
pub mod laws;
pub mod model;
