//! Reliable datagram transport core: datagram headers, package ID sequence
//! space, confirmation tracking and relaying of player packages.

pub mod body;
pub mod confirm;
pub mod events;
pub mod header;
pub mod relay;
