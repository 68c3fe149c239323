//! What the interface can ask for, and what it is shown.
pub mod state;
