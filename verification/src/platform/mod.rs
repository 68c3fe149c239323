//! What the unelevated application decides about the machine: the system's
//! list of site addresses compared with what should be there, the helper's
//! installation, and the key that seals the reach history.
pub mod credentials;
pub mod elevation;
pub mod hosts;
