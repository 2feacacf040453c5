//! Extensions: programs that clients hand to the server to run.

pub mod announce;
pub mod arguments;
pub mod attempt;
pub mod attempt_laws;
pub mod budget;
pub mod chunks;
pub mod completion;
pub mod config;
pub mod control;
pub mod definition;
pub mod dispatch;
pub mod drive;
pub mod endpoints;
pub mod errors;
pub mod exit;
pub mod flow;
pub mod flow_laws;
pub mod host_laws;
pub mod laws;
pub mod lifecycle;
pub mod output;
pub mod packets;
pub mod probe;
pub mod protocol;
pub mod put;
pub mod quickjs_host;
pub mod release;
pub mod replay;
pub mod replay_laws;
pub mod reply_laws;
pub mod run;
pub mod run_laws;
pub mod service;
pub mod status;
pub mod storage_laws;
pub mod supervise;
pub mod terminal;
