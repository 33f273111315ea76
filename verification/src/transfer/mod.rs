//! The transfer engine: what the receiver and the sender decide.

pub mod chunks;
pub mod content;
pub mod events;
pub mod manifest;
pub mod paths;
pub mod receiver;
pub mod sender;
pub mod session;
pub mod speed;
pub mod tokens;
