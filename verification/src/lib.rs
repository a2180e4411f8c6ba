//! SMB2/3 file-sharing server: wire messages, transforms and server state.
//!
//! Everything in this crate is verified against the contracts that stand on its
//! functions. Sockets, storage backends and timers live outside of it and drive
//! the state machines through plain values.

pub mod backend;
pub mod error;
pub mod info_class;
pub mod ntstatus;
pub mod path;
pub mod proto;
pub mod quic;
pub mod server;
pub mod spelling;
pub mod text;
pub mod wire;
