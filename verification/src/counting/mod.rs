//! Noting reaches: whether counting is happening at all, and what one
//! connection to a counting port amounts to, and when Cairn was last seen.
pub mod availability;
pub mod listener;
pub mod presence;
