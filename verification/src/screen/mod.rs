//! What the desktop program holds and decides between two frames: the pairing,
//! the log, the transfer that is shown, and which devices are offered.
//!
//! Time is a number of nanoseconds that only grows.

pub mod devices;
pub mod show;
pub mod state;
