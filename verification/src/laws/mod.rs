//! What the operations of the library are for, over all inputs.
//!
//! Each proof function says what holds of a result in terms of what went in: which
//! results there can be and exactly when, what is kept, what is left out, and how two
//! calls relate.

pub mod basics;
pub mod calls;
pub mod changes;
pub mod commands;
pub mod devices;
pub mod links;
pub mod platforms;
pub mod screens;
pub mod sending;
pub mod transfer;
