//! What Cairn keeps between runs: the person's settings, and the record of
//! every change made to the machine.
pub mod config;
pub mod gaps;
pub mod inventory;
