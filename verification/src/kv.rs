//! The server's key-value store: compare-and-set puts, prefix watches, and the
//! queue of writes behind it.

pub mod laws;
pub mod message;
pub mod sessions;
pub mod store;
pub mod subscription;
pub mod watches;
