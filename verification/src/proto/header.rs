//! The SMB2 header that precedes every message body.

use vstd::prelude::*;

verus! {

/// Length of the header; offsets in message bodies count from its start.
pub const SMB2_HEADER_LEN: usize = 64;

} // verus!
