//! Decision logic of the blit session server.
//!
//! Every module holds state machines, codecs and admission rules as verified
//! functions on plain values. Sockets, processes, databases and clocks stay
//! outside: a caller performs the I/O and hands its results in.

pub mod bytes;
pub mod catalog;
pub mod channel;
pub mod id_map;
pub mod text;
pub mod text_map;
pub mod desktop_bus;
pub mod events;
pub mod extension;
pub mod extension_catalog;
pub mod extension_jobs;
pub mod kv;
pub mod random;
pub mod app_env;
pub mod audio;
pub mod audio_encoder;
pub mod audio_pw;
pub mod gpu_libs;
pub mod ipc_unix;
pub mod ipc_windows;
pub mod laws;
