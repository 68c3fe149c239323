//! Pure domain logic: no I/O, no clock, no platform conditionals.
pub mod checkin;
pub mod dates;
pub mod entries;
pub mod gate;
pub mod normalize;
pub mod patterns;
pub mod readback;
pub mod sni;
pub mod splice;
