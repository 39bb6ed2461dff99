//! Decision logic of an HTTP CONNECT forward proxy.
//!
//! The crate holds everything the proxy decides: how the blacklist file is
//! read into entries, when a destination is blocked, which reply a CONNECT
//! request gets, and in which order a tunnel session upgrades, dials and
//! relays. It performs no input or output itself: the program around it reads
//! files and sockets, feeds the outcomes in as events, and carries out the
//! actions it gets back.

pub mod authority;
pub mod blacklist;
pub mod config;
pub mod dispatch;
pub mod session;
pub mod trace;
