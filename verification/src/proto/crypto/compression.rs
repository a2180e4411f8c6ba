//! Compression transform frames of SMB 3.1.1: LZ77 and repeated patterns, alone or
//! chained.

use crate::proto::crypto::lz77;
use crate::proto::crypto::lz77::{compress_xpress_lz77, decompress_xpress_lz77};
use crate::proto::messages::negotiate_context::CompressionCapabilities;
use crate::wire;
use vstd::prelude::*;
use vstd::slice::slice_subrange;

verus! {

/// Why a compressed frame is refused.
#[derive(Debug, Clone, Copy, PartialEq, Eq, Structural)]
pub enum CompressionError {
    /// The algorithm is unknown or was not negotiated.
    Unsupported,
    /// The frame is malformed.
    Invalid,
}

impl CompressionError {
    /// The error in words.
    pub fn message(self) -> (r: &'static str)
        ensures
            r@ == match self {
                CompressionError::Unsupported => "unsupported SMB compression algorithm"@,
                CompressionError::Invalid => "invalid SMB compression transform"@,
            },
    {
        match self {
            CompressionError::Unsupported => "unsupported SMB compression algorithm",
            CompressionError::Invalid => "invalid SMB compression transform",
        }
    }
}

pub type CompressionResult<T> = Result<T, CompressionError>;

/// First bytes of a compressed frame.
pub const COMPRESSION_MAGIC: [u8; 4] = [0xFC, 0x53, 0x4D, 0x42];

/// First bytes of a plain frame.
pub const SMB2_MAGIC: [u8; 4] = [0xFE, 0x53, 0x4D, 0x42];

/// Length of the header of an unchained frame.
pub const COMPRESSION_TRANSFORM_HEADER_SIZE: usize = 16;

/// Flag of the first part of a chained frame.
pub const COMPRESSION_FLAG_CHAINED: u16 = 0x0001;

// ---------------------------------------------------------------------------
// What a frame expands to
// ---------------------------------------------------------------------------

/// Whether bytes start with a magic.
pub open spec fn starts_with(b: Seq<u8>, magic: [u8; 4]) -> bool {
    b.len() >= 4 && b.subrange(0, 4) == magic@
}

/// A run of `n` equal bytes.
pub open spec fn run_of(byte: u8, n: int) -> Seq<u8> {
    Seq::new(n as nat, |i: int| byte)
}

/// What a payload expands to; `limit` is the length that LZ77 must give and that a
/// pattern must not exceed.
pub open spec fn payload_plain(algorithm: int, payload: Seq<u8>, limit: int) -> CompressionResult<
    Seq<u8>,
> {
    if algorithm == CompressionCapabilities::ALGORITHM_NONE {
        Ok(payload)
    } else if algorithm == CompressionCapabilities::ALGORITHM_LZ77 {
        match lz77::lz77_decode(payload) {
            Some(x) => if x.len() == limit {
                Ok(x)
            } else {
                Err(CompressionError::Invalid)
            },
            None => Err(CompressionError::Invalid),
        }
    } else if algorithm == CompressionCapabilities::ALGORITHM_PATTERN_V1 {
        if payload.len() != 8 || wire::le32(payload, 4) > limit {
            Err(CompressionError::Invalid)
        } else {
            Ok(run_of(payload[0], wire::le32(payload, 4)))
        }
    } else {
        Err(CompressionError::Unsupported)
    }
}

/// What a payload of a chain expands to; LZ77 gives its own length first.
pub open spec fn chained_payload_plain(
    algorithm: int,
    payload: Seq<u8>,
    limit: int,
) -> CompressionResult<Seq<u8>> {
    if algorithm != CompressionCapabilities::ALGORITHM_LZ77 {
        payload_plain(algorithm, payload, limit)
    } else if payload.len() < 4 || wire::le32(payload, 0) > limit {
        Err(CompressionError::Invalid)
    } else {
        payload_plain(
            algorithm,
            payload.subrange(4, payload.len() as int),
            wire::le32(payload, 0),
        )
    }
}

/// What a chain expands to, from the part at `at` on, behind what `out` holds.
pub open spec fn chain_plain(
    data: Seq<u8>,
    allowed: Seq<u16>,
    original: int,
    at: int,
    out: Seq<u8>,
) -> CompressionResult<Seq<u8>>
    decreases data.len() - at,
{
    if at >= data.len() {
        Ok(out)
    } else if at + 8 > data.len() {
        Err(CompressionError::Invalid)
    } else if at == 0 && wire::le16(data, 2) % 2 == 0 {
        Err(CompressionError::Invalid)
    } else if at != 0 && wire::le16(data, at + 2) != 0 {
        Err(CompressionError::Invalid)
    } else if at + 8 + wire::le32(data, at + 4) > data.len() {
        Err(CompressionError::Invalid)
    } else if wire::le16(data, at) != CompressionCapabilities::ALGORITHM_NONE && !allowed.contains(
        wire::le16(data, at) as u16,
    ) {
        Err(CompressionError::Unsupported)
    } else {
        let end = at + 8 + wire::le32(data, at + 4);
        match chained_payload_plain(
            wire::le16(data, at),
            data.subrange(at + 8, end),
            original - out.len(),
        ) {
            Err(e) => Err(e),
            Ok(part) => if out.len() + part.len() > original {
                Err(CompressionError::Invalid)
            } else {
                chain_plain(data, allowed, original, end, out + part)
            },
        }
    }
}

/// The plain frame, if it has the length it should have and starts as a frame does.
pub open spec fn checked_plain(
    plain: CompressionResult<Seq<u8>>,
    original: int,
) -> CompressionResult<
    Seq<u8>,
> {
    match plain {
        Err(e) => Err(e),
        Ok(x) => if x.len() == original && starts_with(x, SMB2_MAGIC) {
            Ok(x)
        } else {
            Err(CompressionError::Invalid)
        },
    }
}

/// What a compressed frame expands to. `max` bounds the plain length where it is not
/// zero.
pub open spec fn transform_plain(
    frame: Seq<u8>,
    allowed: Seq<u16>,
    max: int,
) -> CompressionResult<Seq<u8>> {
    let original = wire::le32(frame, 4);
    let prefix_end = 16 + wire::le32(frame, 12);
    if frame.len() < 16 || !starts_with(frame, COMPRESSION_MAGIC) {
        Err(CompressionError::Invalid)
    } else if original == 0 || (max != 0 && original > max) {
        Err(CompressionError::Invalid)
    } else if wire::le16(frame, 10) == 0 {
        if !allowed.contains(wire::le16(frame, 8) as u16) {
            Err(CompressionError::Unsupported)
        } else if prefix_end > frame.len() {
            Err(CompressionError::Invalid)
        } else {
            match payload_plain(
                wire::le16(frame, 8),
                frame.subrange(prefix_end, frame.len() as int),
                original,
            ) {
                Err(e) => Err(e),
                Ok(x) => checked_plain(Ok(frame.subrange(16, prefix_end) + x), original),
            }
        }
    } else if wire::le16(frame, 10) == COMPRESSION_FLAG_CHAINED {
        checked_plain(
            chain_plain(
                frame.subrange(8, frame.len() as int),
                allowed,
                original,
                0,
                Seq::empty(),
            ),
            original,
        )
    } else {
        Err(CompressionError::Invalid)
    }
}

// ---------------------------------------------------------------------------
// What a plain frame is compressed to
// ---------------------------------------------------------------------------

/// The LZ77 frame of a plain one, where that is worth it.
pub open spec fn lz77_frame(plain: Seq<u8>) -> Option<Seq<u8>> {
    if plain.len() <= 16 || !starts_with(plain, SMB2_MAGIC) || lz77::lz77_encode(plain).len()
        >= plain.len() {
        None
    } else {
        Some(
            COMPRESSION_MAGIC@ + wire::bytes32(plain.len() as u32) + wire::bytes16(
                CompressionCapabilities::ALGORITHM_LZ77,
            ) + wire::bytes16(0) + wire::bytes32(0) + lz77::lz77_encode(plain),
        )
    }
}

/// Where the run of the last byte starts, looking back from `start`.
pub open spec fn last_run_start(plain: Seq<u8>, start: int) -> int
    decreases start,
{
    if start > 0 && plain[start - 1] == plain.last() {
        last_run_start(plain, start - 1)
    } else {
        start
    }
}

/// The pattern part of a chain.
#[verifier::opaque]
pub open spec fn pattern_part(flags: u16, byte: u8, repetitions: u32) -> Seq<u8> {
    wire::bytes16(CompressionCapabilities::ALGORITHM_PATTERN_V1) + wire::bytes16(flags)
        + wire::bytes32(8) + seq![byte, 0u8, 0u8, 0u8] + wire::bytes32(repetitions)
}

/// The part of a chain that holds plain bytes.
#[verifier::opaque]
pub open spec fn plain_part(prefix: Seq<u8>) -> Seq<u8> {
    wire::bytes16(CompressionCapabilities::ALGORITHM_NONE) + wire::bytes16(COMPRESSION_FLAG_CHAINED)
        + wire::bytes32(prefix.len() as u32) + prefix
}

/// The chained frame of a plain one that ends in a long run of one byte.
pub open spec fn pattern_frame(plain: Seq<u8>) -> Option<Seq<u8>> {
    let start = last_run_start(plain, plain.len() - 1);
    let repetitions = plain.len() - start;
    let size = if start == 0 { 24 } else { 32 + start };
    if plain.len() <= 32 || !starts_with(plain, SMB2_MAGIC) || repetitions <= 32 || size
        >= plain.len() {
        None
    } else if start == 0 {
        Some(
            COMPRESSION_MAGIC@ + wire::bytes32(plain.len() as u32) + pattern_part(
                COMPRESSION_FLAG_CHAINED,
                plain.last(),
                repetitions as u32,
            ),
        )
    } else {
        Some(
            COMPRESSION_MAGIC@ + wire::bytes32(plain.len() as u32) + plain_part(
                plain.subrange(0, start),
            ) + pattern_part(0, plain.last(), repetitions as u32),
        )
    }
}

/// The frame of a response for an algorithm, where there is one.
pub open spec fn response_frame(plain: Seq<u8>, algorithm: u16) -> Option<Seq<u8>> {
    if algorithm == CompressionCapabilities::ALGORITHM_LZ77 {
        lz77_frame(plain)
    } else if algorithm == CompressionCapabilities::ALGORITHM_PATTERN_V1 {
        pattern_frame(plain)
    } else {
        None
    }
}

// ---------------------------------------------------------------------------
// Executable functions
// ---------------------------------------------------------------------------

/// Whether bytes start with a magic.
fn has_magic(b: &[u8], magic: [u8; 4]) -> (r: bool)
    ensures
        r == starts_with(b@, magic),
{
    if b.len() < 4 {
        return false;
    }
    let r: bool = b[0] == magic[0] && b[1] == magic[1] && b[2] == magic[2] && b[3] == magic[3];
    proof {
        let p = b@.subrange(0, 4);
        assert(p[0] == b@[0] && p[1] == b@[1] && p[2] == b@[2] && p[3] == b@[3]);
        if r {
            assert(p =~= magic@);
        }
    }
    r
}

/// Whether a frame is compressed.
pub fn is_compression_transform(frame: &[u8]) -> (r: bool)
    ensures
        r == starts_with(frame@, COMPRESSION_MAGIC),
{
    has_magic(frame, COMPRESSION_MAGIC)
}

/// Whether an algorithm was negotiated.
fn compression_allowed(algorithm: u16, allowed: &[u16]) -> (r: bool)
    ensures
        r == allowed@.contains(algorithm),
{
    let mut i: usize = 0;
    while i < allowed.len()
        invariant
            i <= allowed@.len(),
            forall|j: int| 0 <= j < i ==> allowed@[j] != algorithm,
        decreases allowed@.len() - i,
    {
        if allowed[i] == algorithm {
            assert(allowed@[i as int] == algorithm);
            return true;
        }
        i += 1;
    }
    false
}

/// Whether a plain frame has the length it should have and starts as a frame does.
fn validate_plain(out: &[u8], original_size: usize) -> (r: CompressionResult<()>)
    ensures
        match r {
            Ok(_) => out@.len() == original_size && starts_with(out@, SMB2_MAGIC),
            Err(e) => e == CompressionError::Invalid && !(out@.len() == original_size
                && starts_with(out@, SMB2_MAGIC)),
        },
{
    if out.len() != original_size || !has_magic(out, SMB2_MAGIC) {
        Err(CompressionError::Invalid)
    } else {
        Ok(())
    }
}

/// Whether a result is what a spec result says.
pub open spec fn matches_plain(
    r: CompressionResult<Vec<u8>>,
    want: CompressionResult<Seq<u8>>,
) -> bool {
    match (r, want) {
        (Ok(v), Ok(x)) => v@ == x,
        (Err(a), Err(b)) => a == b,
        _ => false,
    }
}

/// Expands a payload.
fn decompress_payload(algorithm: u16, payload: &[u8], expected_max: usize) -> (r: CompressionResult<
    Vec<u8>,
>)
    ensures
        matches_plain(r, payload_plain(algorithm as int, payload@, expected_max as int)),
{
    if algorithm == CompressionCapabilities::ALGORITHM_NONE {
        let out: Vec<u8> = wire::copy_range(payload, 0, payload.len());
        assert(out@ =~= payload@);
        Ok(out)
    } else if algorithm == CompressionCapabilities::ALGORITHM_LZ77 {
        decompress_xpress_lz77(payload, expected_max)
    } else if algorithm == CompressionCapabilities::ALGORITHM_PATTERN_V1 {
        if payload.len() != 8 {
            return Err(CompressionError::Invalid);
        }
        let repetitions: usize = wire::read_u32(payload, 4) as usize;
        if repetitions > expected_max {
            return Err(CompressionError::Invalid);
        }
        let out: Vec<u8> = vec![payload[0]; repetitions];
        assert(out@ =~= run_of(payload@[0], wire::le32(payload@, 4)));
        Ok(out)
    } else {
        Err(CompressionError::Unsupported)
    }
}

/// Expands a payload of a chain.
fn decompress_chained_payload(
    algorithm: u16,
    payload: &[u8],
    expected_max: usize,
) -> (r: CompressionResult<Vec<u8>>)
    ensures
        matches_plain(r, chained_payload_plain(algorithm as int, payload@, expected_max as int)),
{
    if algorithm != CompressionCapabilities::ALGORITHM_LZ77 {
        return decompress_payload(algorithm, payload, expected_max);
    }
    if payload.len() < 4 {
        return Err(CompressionError::Invalid);
    }
    let original_size: usize = wire::read_u32(payload, 0) as usize;
    if original_size > expected_max {
        return Err(CompressionError::Invalid);
    }
    decompress_xpress_lz77(slice_subrange(payload, 4, payload.len()), original_size)
}

/// Expands a chain.
fn decompress_chained(data: &[u8], allowed: &[u16], original_size: usize) -> (r: CompressionResult<
    Vec<u8>,
>)
    ensures
        matches_plain(
            r,
            chain_plain(data@, allowed@, original_size as int, 0, Seq::empty()),
        ),
{
    let mut out: Vec<u8> = Vec::new();
    let mut off: usize = 0;
    let len: usize = data.len();
    assert(out@ =~= Seq::<u8>::empty());
    while off < len
        invariant
            len == data@.len(),
            off <= len,
            out@.len() <= original_size,
            chain_plain(data@, allowed@, original_size as int, 0, Seq::empty()) == chain_plain(
                data@,
                allowed@,
                original_size as int,
                off as int,
                out@,
            ),
        decreases len - off,
    {
        if len - off < 8 {
            return Err(CompressionError::Invalid);
        }
        let algorithm: u16 = wire::read_u16(data, off);
        let flags: u16 = wire::read_u16(data, off + 2);
        let length: usize = wire::read_u32(data, off + 4) as usize;
        if off == 0 {
            assert(flags & 1 == flags % 2) by (bit_vector);
            if flags & COMPRESSION_FLAG_CHAINED == 0 {
                return Err(CompressionError::Invalid);
            }
        } else if flags != 0 {
            return Err(CompressionError::Invalid);
        }
        let start: usize = off + 8;
        if length > len - start {
            return Err(CompressionError::Invalid);
        }
        let end: usize = start + length;
        if algorithm != CompressionCapabilities::ALGORITHM_NONE && !compression_allowed(
            algorithm,
            allowed,
        ) {
            return Err(CompressionError::Unsupported);
        }
        let expected: usize = original_size - out.len();
        let part: Vec<u8> = match decompress_chained_payload(
            algorithm,
            slice_subrange(data, start, end),
            expected,
        ) {
            Ok(part) => part,
            Err(e) => {
                return Err(e);
            },
        };
        if part.len() > expected {
            return Err(CompressionError::Invalid);
        }
        wire::put_bytes(&mut out, part.as_slice());
        off = end;
    }
    Ok(out)
}

/// Expands a compressed frame. `max_original` bounds the plain length where it is not
/// zero.
pub fn decompress_transform(frame: &[u8], allowed: &[u16], max_original: u32) -> (r:
    CompressionResult<Vec<u8>>)
    ensures
        matches_plain(r, transform_plain(frame@, allowed@, max_original as int)),
{
    if frame.len() < COMPRESSION_TRANSFORM_HEADER_SIZE || !has_magic(frame, COMPRESSION_MAGIC) {
        return Err(CompressionError::Invalid);
    }
    let original: u32 = wire::read_u32(frame, 4);
    let original_size: usize = original as usize;
    if original == 0 || (max_original != 0 && original > max_original) {
        return Err(CompressionError::Invalid);
    }
    let algorithm: u16 = wire::read_u16(frame, 8);
    let flags: u16 = wire::read_u16(frame, 10);
    let offset: usize = wire::read_u32(frame, 12) as usize;
    if flags == 0 {
        if !compression_allowed(algorithm, allowed) {
            return Err(CompressionError::Unsupported);
        }
        if offset > frame.len() - COMPRESSION_TRANSFORM_HEADER_SIZE {
            return Err(CompressionError::Invalid);
        }
        let prefix_end: usize = COMPRESSION_TRANSFORM_HEADER_SIZE + offset;
        let payload: Vec<u8> = match decompress_payload(
            algorithm,
            slice_subrange(frame, prefix_end, frame.len()),
            original_size,
        ) {
            Ok(payload) => payload,
            Err(e) => {
                return Err(e);
            },
        };
        let mut out: Vec<u8> = wire::copy_range(frame, 16, prefix_end);
        wire::put_bytes(&mut out, payload.as_slice());
        match validate_plain(out.as_slice(), original_size) {
            Ok(_) => Ok(out),
            Err(e) => Err(e),
        }
    } else if flags == COMPRESSION_FLAG_CHAINED {
        let out: Vec<u8> = match decompress_chained(
            slice_subrange(frame, 8, frame.len()),
            allowed,
            original_size,
        ) {
            Ok(out) => out,
            Err(e) => {
                return Err(e);
            },
        };
        match validate_plain(out.as_slice(), original_size) {
            Ok(_) => Ok(out),
            Err(e) => Err(e),
        }
    } else {
        Err(CompressionError::Invalid)
    }
}

/// Whether an optional frame is what a spec frame says.
pub open spec fn matches_frame(r: Option<Vec<u8>>, want: Option<Seq<u8>>) -> bool {
    match (r, want) {
        (Some(v), Some(x)) => v@ == x,
        (None, None) => true,
        _ => false,
    }
}

/// Compresses a plain frame by LZ77, where that is worth it.
pub fn compress_lz77_transform(plain: &[u8]) -> (r: Option<Vec<u8>>)
    ensures
        matches_frame(r, lz77_frame(plain@)),
{
    if plain.len() <= COMPRESSION_TRANSFORM_HEADER_SIZE || !has_magic(plain, SMB2_MAGIC) {
        return None;
    }
    let compressed: Vec<u8> = compress_xpress_lz77(plain);
    if compressed.len() >= plain.len() {
        return None;
    }
    let mut out: Vec<u8> = Vec::new();
    wire::put_bytes(&mut out, COMPRESSION_MAGIC.as_slice());
    wire::put_u32(&mut out, plain.len() as u32);
    wire::put_u16(&mut out, CompressionCapabilities::ALGORITHM_LZ77);
    wire::put_u16(&mut out, 0);
    wire::put_u32(&mut out, 0);
    wire::put_bytes(&mut out, compressed.as_slice());
    assert(out@ =~= lz77_frame(plain@)->0);
    Some(out)
}

/// Appends the pattern part of a chain.
fn put_pattern_part(out: &mut Vec<u8>, flags: u16, byte: u8, repetitions: u32)
    ensures
        final(out)@ == old(out)@ + pattern_part(flags, byte, repetitions),
{
    proof {
        reveal(pattern_part);
    }
    wire::put_u16(out, CompressionCapabilities::ALGORITHM_PATTERN_V1);
    wire::put_u16(out, flags);
    wire::put_u32(out, 8);
    out.push(byte);
    out.push(0);
    out.push(0);
    out.push(0);
    wire::put_u32(out, repetitions);
    assert(out@ =~= old(out)@ + pattern_part(flags, byte, repetitions));
}

/// Compresses a plain frame that ends in a long run of one byte.
pub fn compress_pattern_transform(plain: &[u8]) -> (r: Option<Vec<u8>>)
    ensures
        matches_frame(r, pattern_frame(plain@)),
{
    if plain.len() <= 32 || !has_magic(plain, SMB2_MAGIC) {
        return None;
    }
    let pattern: u8 = plain[plain.len() - 1];
    let mut start: usize = plain.len() - 1;
    while start > 0 && plain[start - 1] == pattern
        invariant
            start < plain@.len(),
            pattern == plain@.last(),
            last_run_start(plain@, plain@.len() - 1) == last_run_start(plain@, start as int),
        decreases start,
    {
        start -= 1;
    }
    let repetitions: usize = plain.len() - start;
    if repetitions <= 32 {
        return None;
    }
    let mut out: Vec<u8> = Vec::new();
    wire::put_bytes(&mut out, COMPRESSION_MAGIC.as_slice());
    wire::put_u32(&mut out, plain.len() as u32);
    if start == 0 {
        put_pattern_part(&mut out, COMPRESSION_FLAG_CHAINED, pattern, repetitions as u32);
        assert(out@ =~= pattern_frame(plain@)->0);
        return Some(out);
    }
    let ghost head = out@;
    proof {
        reveal(plain_part);
    }
    wire::put_u16(&mut out, CompressionCapabilities::ALGORITHM_NONE);
    wire::put_u16(&mut out, COMPRESSION_FLAG_CHAINED);
    wire::put_u32(&mut out, start as u32);
    wire::put_bytes(&mut out, slice_subrange(plain, 0, start));
    assert(out@ =~= head + plain_part(plain@.subrange(0, start as int)));
    put_pattern_part(&mut out, 0, pattern, repetitions as u32);
    assert(out@ =~= pattern_frame(plain@)->0);
    Some(out)
}

/// Compresses a response by a negotiated algorithm, where that is worth it.
pub fn compress_response(plain: &[u8], algorithm: u16) -> (r: Option<Vec<u8>>)
    ensures
        matches_frame(r, response_frame(plain@, algorithm)),
{
    if algorithm == CompressionCapabilities::ALGORITHM_LZ77 {
        compress_lz77_transform(plain)
    } else if algorithm == CompressionCapabilities::ALGORITHM_PATTERN_V1 {
        compress_pattern_transform(plain)
    } else {
        None
    }
}

// ---------------------------------------------------------------------------
// Compressed, then expanded
// ---------------------------------------------------------------------------

proof fn lemma_lz77_frame_expands(plain: Seq<u8>, allowed: Seq<u16>, max: int)
    requires
        plain.len() <= 0xffff_ffff,
        max == 0 || plain.len() <= max,
        allowed.contains(CompressionCapabilities::ALGORITHM_LZ77),
        lz77_frame(plain) is Some,
    ensures
        transform_plain(lz77_frame(plain)->0, allowed, max) == CompressionResult::Ok(plain),
{
    let b = lz77_frame(plain)->0;
    let packed = lz77::lz77_encode(plain);
    let original = plain.len() as u32;
    lz77::lz77_round_trip(plain);
    assert(b.len() == 16 + packed.len());
    assert(b.subrange(0, 4) =~= COMPRESSION_MAGIC@);
    assert(b.subrange(4, 8) =~= wire::bytes32(original));
    wire::le32_of_bytes32(b, 4, original);
    assert(b.subrange(8, 10) =~= wire::bytes16(CompressionCapabilities::ALGORITHM_LZ77));
    wire::le16_of_bytes16(b, 8, CompressionCapabilities::ALGORITHM_LZ77);
    assert(b.subrange(10, 12) =~= wire::bytes16(0));
    wire::le16_of_bytes16(b, 10, 0);
    assert(b.subrange(12, 16) =~= wire::bytes32(0));
    wire::le32_of_bytes32(b, 12, 0);
    assert(b.subrange(16, b.len() as int) =~= packed);
    assert(b.subrange(16, 16) + plain =~= plain);
}

proof fn lemma_last_run(plain: Seq<u8>, start: int)
    requires
        0 <= start < plain.len(),
    ensures
        0 <= last_run_start(plain, start) <= start,
        forall|i: int|
            last_run_start(plain, start) <= i < start ==> #[trigger] plain[i] == plain.last(),
    decreases start,
{
    if start > 0 && plain[start - 1] == plain.last() {
        lemma_last_run(plain, start - 1);
    }
}

/// The fields of a pattern part behind other bytes.
proof fn lemma_pattern_part(pre: Seq<u8>, flags: u16, byte: u8, repetitions: u32)
    ensures
        ({
            let b = pre + pattern_part(flags, byte, repetitions);
            let at = pre.len() as int;
            let payload = b.subrange(at + 8, at + 16);
            &&& b.len() == at + 16
            &&& wire::le16(b, at) == CompressionCapabilities::ALGORITHM_PATTERN_V1
            &&& wire::le16(b, at + 2) == flags
            &&& wire::le32(b, at + 4) == 8
            &&& payload[0] == byte
            &&& wire::le32(payload, 4) == repetitions
        }),
{
    reveal(pattern_part);
    let b = pre + pattern_part(flags, byte, repetitions);
    let at = pre.len() as int;
    let payload = b.subrange(at + 8, at + 16);
    assert(b.subrange(at, at + 2) =~= wire::bytes16(
        CompressionCapabilities::ALGORITHM_PATTERN_V1,
    ));
    wire::le16_of_bytes16(b, at, CompressionCapabilities::ALGORITHM_PATTERN_V1);
    assert(b.subrange(at + 2, at + 4) =~= wire::bytes16(flags));
    wire::le16_of_bytes16(b, at + 2, flags);
    assert(b.subrange(at + 4, at + 8) =~= wire::bytes32(8));
    wire::le32_of_bytes32(b, at + 4, 8);
    assert(payload.subrange(4, 8) =~= wire::bytes32(repetitions));
    wire::le32_of_bytes32(payload, 4, repetitions);
}

/// The fields of a plain part that starts a chain.
proof fn lemma_plain_part(prefix: Seq<u8>, post: Seq<u8>)
    requires
        prefix.len() <= 0xffff_ffff,
    ensures
        ({
            let b = plain_part(prefix) + post;
            &&& b.len() == 8 + prefix.len() + post.len()
            &&& wire::le16(b, 0) == CompressionCapabilities::ALGORITHM_NONE
            &&& wire::le16(b, 2) == COMPRESSION_FLAG_CHAINED
            &&& wire::le32(b, 4) == prefix.len()
            &&& b.subrange(8, 8int + prefix.len()) == prefix
        }),
{
    reveal(plain_part);
    let b = plain_part(prefix) + post;
    assert(b.subrange(0, 2) =~= wire::bytes16(CompressionCapabilities::ALGORITHM_NONE));
    wire::le16_of_bytes16(b, 0, CompressionCapabilities::ALGORITHM_NONE);
    assert(b.subrange(2, 4) =~= wire::bytes16(COMPRESSION_FLAG_CHAINED));
    wire::le16_of_bytes16(b, 2, COMPRESSION_FLAG_CHAINED);
    assert(b.subrange(4, 8) =~= wire::bytes32(prefix.len() as u32));
    wire::le32_of_bytes32(b, 4, prefix.len() as u32);
    assert(b.subrange(8, 8int + prefix.len()) =~= prefix);
}

/// A chain of plain bytes and a run expands to the bytes and the run.
proof fn lemma_pattern_chain(prefix: Seq<u8>, byte: u8, repetitions: u32, allowed: Seq<u16>)
    requires
        prefix.len() <= 0xffff_ffff,
        allowed.contains(CompressionCapabilities::ALGORITHM_PATTERN_V1),
    ensures
        chain_plain(
            plain_part(prefix) + pattern_part(0, byte, repetitions),
            allowed,
            prefix.len() + repetitions,
            0,
            Seq::empty(),
        ) == CompressionResult::Ok(prefix + run_of(byte, repetitions as int)),
{
    let part = plain_part(prefix);
    let post = pattern_part(0, byte, repetitions);
    let data = part + post;
    let size = prefix.len() + repetitions;
    let mid = 8int + prefix.len();
    lemma_plain_part(prefix, post);
    assert(part.len() == mid);
    lemma_pattern_part(part, 0, byte, repetitions);
    let payload = data.subrange(mid + 8, mid + 16);
    let run = run_of(byte, repetitions as int);
    assert(payload_plain(
        CompressionCapabilities::ALGORITHM_PATTERN_V1 as int,
        payload,
        repetitions as int,
    )->Ok_0 =~= run);
    assert(chain_plain(data, allowed, size, mid + 16, prefix + run) == CompressionResult::Ok(
        prefix + run,
    ));
    assert(chain_plain(data, allowed, size, mid, prefix) == CompressionResult::Ok(prefix + run));
    assert(Seq::<u8>::empty() + prefix =~= prefix);
}

proof fn lemma_pattern_frame_expands(plain: Seq<u8>, allowed: Seq<u16>, max: int)
    requires
        plain.len() <= 0xffff_ffff,
        max == 0 || plain.len() <= max,
        allowed.contains(CompressionCapabilities::ALGORITHM_PATTERN_V1),
        pattern_frame(plain) is Some,
    ensures
        transform_plain(pattern_frame(plain)->0, allowed, max) == CompressionResult::Ok(plain),
{
    let frame = pattern_frame(plain)->0;
    let start = last_run_start(plain, plain.len() - 1);
    let original = plain.len() as u32;
    let repetitions = (plain.len() - start) as u32;
    lemma_last_run(plain, plain.len() - 1);
    assert(plain.subrange(0, 4)[0] == plain[0] && plain.subrange(0, 4)[1] == plain[1]);
    assert(start > 0);
    let prefix = plain.subrange(0, start);
    let head = COMPRESSION_MAGIC@ + wire::bytes32(original);
    let post = pattern_part(0, plain.last(), repetitions);
    let data = plain_part(prefix) + post;
    assert(frame =~= head + data);
    lemma_plain_part(prefix, post);
    lemma_pattern_part(plain_part(prefix), 0, plain.last(), repetitions);
    assert(frame.subrange(0, 4) =~= COMPRESSION_MAGIC@);
    assert(frame.subrange(4, 8) =~= wire::bytes32(original));
    wire::le32_of_bytes32(frame, 4, original);
    assert(frame.subrange(8, frame.len() as int) =~= data);
    assert(frame[10] == data[2] && frame[11] == data[3]);
    lemma_pattern_chain(prefix, plain.last(), repetitions, allowed);
    let run = run_of(plain.last(), repetitions as int);
    assert(prefix + run =~= plain);
}

/// A response that is compressed expands to itself again, wherever its algorithm is
/// allowed and its length too.
pub proof fn compressed_response_expands(
    plain: Seq<u8>,
    algorithm: u16,
    allowed: Seq<u16>,
    max: int,
)
    requires
        plain.len() <= 0xffff_ffff,
        max == 0 || plain.len() <= max,
        allowed.contains(algorithm),
        response_frame(plain, algorithm) is Some,
    ensures
        transform_plain(response_frame(plain, algorithm)->0, allowed, max)
            == CompressionResult::Ok(plain),
{
    if algorithm == CompressionCapabilities::ALGORITHM_LZ77 {
        lemma_lz77_frame_expands(plain, allowed, max);
    } else {
        lemma_pattern_frame_expands(plain, allowed, max);
    }
}

} // verus!
