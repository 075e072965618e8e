//! The agent session core: per-agent PTY sessions under exactly-once
//! naming, a bounded byte history with escape-sequence-aware trimming, a
//! structured terminal snapshot maintained from the PTY byte stream, a
//! subscriber fanout, and the line-oriented attach protocol served over a
//! local socket.

pub mod broker;
pub mod builder;
pub mod config;
pub mod debug;
pub mod history;
pub mod naming;
pub mod registry;
pub mod session;
pub mod snapshot;
