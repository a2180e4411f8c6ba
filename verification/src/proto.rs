//! Protocol layer: transforms and message bodies.

pub mod crypto;
pub mod error;
pub mod header;
pub mod messages;
