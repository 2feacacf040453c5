//! The bounded journal of events: a ring of records, dumps of it, and streams
//! that follow it.

pub mod laws;
pub mod log;
pub mod record;
pub mod ring;
