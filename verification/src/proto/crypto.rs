//! Compression and encryption transforms of SMB 3.x frames.

pub mod ccm;
pub mod cipher;
pub mod compression;
pub mod encryption;
pub mod framing;
pub mod kdf;
pub mod lz77;
pub mod packing;
