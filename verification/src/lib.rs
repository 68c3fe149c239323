//! Cairn's core: what is protected, how it is written into the system's
//! hosts file, and the rules that decide when protection may be reduced.
//!
//! Everything here is pure: callers pass files, clocks and answers from the
//! platform in as plain values, and get plain values back.
pub mod counting;
pub mod domain;
pub mod enforcement;
pub mod helper;
pub mod ipc;
pub mod link;
pub mod platform;
pub mod protocol;
pub mod services;
pub mod store;
pub mod text;
