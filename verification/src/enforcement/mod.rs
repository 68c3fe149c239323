//! Turning intent into what is actually on the machine, and back again.
//!
//! Two directions, deliberately not symmetrical: increases apply
//! immediately, and reductions have one route, and it waits (`reduce`).
pub mod apply;
pub mod reach_mode;
pub mod reduce;
pub mod seed;
pub mod state;
pub mod teardown;
pub mod trail;
