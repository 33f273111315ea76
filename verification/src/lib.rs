//! Caybul moves files between two devices over a cable.
//!
//! This crate holds what the programs decide and compute; sockets, files, clocks
//! and windows belong to the programs. [`transfer`] is the transfer engine with
//! its resume records, [`pair`] the pairing that comes before it, [`protocol`] the
//! messages between the two sides. [`link`] and [`net`] tell which cable a peer is
//! on, [`discovery`] finds peers, and [`cli`] and [`screen`] are what the two
//! programs say and do. [`laws`] states what all of this is for.

pub mod address;
pub mod cli;
pub mod config;
pub mod digest;
pub mod discovery;
pub mod laws;
pub mod link;
pub mod net;
pub mod order;
pub mod pair;
pub mod protocol;
pub mod screen;
pub mod text;
pub mod transfer;
pub mod util;
