//! Core of a stock-quote streaming service: the session registry, the
//! control-plane command handler, the per-session dispatch and heartbeat
//! decision logic, the inactivity reaper, and the wire codec for quote
//! records. All I/O (sockets, threads, clocks) stays outside; these modules
//! hold the verified rules that the surrounding program follows.

pub mod command;
pub mod dispatch;
pub mod heartbeat;
pub mod numfmt;
pub mod quote;
pub mod registry;
pub mod strutil;
