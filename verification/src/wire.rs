//! Little-endian integers and byte strings on the wire.
//!
//! The spec functions say what a field at an offset reads as and which bytes a
//! value is written as; the executable functions beside them do the work.

use vstd::prelude::*;
use vstd::slice::{slice_subrange, slice_to_vec};

verus! {

/// The 16-bit little-endian integer at `at`.
pub open spec fn le16(b: Seq<u8>, at: int) -> int {
    b[at] + 0x100 * b[at + 1]
}

/// The 32-bit little-endian integer at `at`.
pub open spec fn le32(b: Seq<u8>, at: int) -> int {
    b[at] + 0x100 * b[at + 1] + 0x1_0000 * b[at + 2] + 0x100_0000 * b[at + 3]
}

/// The 64-bit little-endian integer at `at`.
pub open spec fn le64(b: Seq<u8>, at: int) -> int {
    le32(b, at) + 0x1_0000_0000 * le32(b, at + 4)
}

/// The two bytes of a 16-bit integer, low byte first.
pub open spec fn bytes16(x: u16) -> Seq<u8> {
    seq![(x % 0x100) as u8, (x / 0x100) as u8]
}

/// The four bytes of a 32-bit integer, low byte first.
pub open spec fn bytes32(x: u32) -> Seq<u8> {
    seq![
        (x % 0x100) as u8,
        (x / 0x100 % 0x100) as u8,
        (x / 0x1_0000 % 0x100) as u8,
        (x / 0x100_0000) as u8,
    ]
}

/// The eight bytes of a 64-bit integer, low byte first.
pub open spec fn bytes64(x: u64) -> Seq<u8> {
    bytes32((x % 0x1_0000_0000) as u32) + bytes32((x / 0x1_0000_0000) as u32)
}

/// `n` zero bytes.
pub open spec fn zeros(n: int) -> Seq<u8> {
    Seq::new(n as nat, |i: int| 0u8)
}

/// Writing a 16-bit integer and reading it back gives the integer.
pub proof fn le16_of_bytes16(b: Seq<u8>, at: int, x: u16)
    requires
        0 <= at,
        at + 2 <= b.len(),
        b.subrange(at, at + 2) == bytes16(x),
    ensures
        le16(b, at) == x,
{
    let s = b.subrange(at, at + 2);
    assert(s[0] == b[at] && s[1] == b[at + 1]);
}

/// Writing a 32-bit integer and reading it back gives the integer.
pub proof fn le32_of_bytes32(b: Seq<u8>, at: int, x: u32)
    requires
        0 <= at,
        at + 4 <= b.len(),
        b.subrange(at, at + 4) == bytes32(x),
    ensures
        le32(b, at) == x,
{
    let s = b.subrange(at, at + 4);
    assert(s[0] == b[at] && s[1] == b[at + 1] && s[2] == b[at + 2] && s[3] == b[at + 3]);
}

/// Writing a 64-bit integer and reading it back gives the integer.
pub proof fn le64_of_bytes64(b: Seq<u8>, at: int, x: u64)
    requires
        0 <= at,
        at + 8 <= b.len(),
        b.subrange(at, at + 8) == bytes64(x),
    ensures
        le64(b, at) == x,
{
    let s = b.subrange(at, at + 8);
    let low = (x % 0x1_0000_0000) as u32;
    let high = (x / 0x1_0000_0000) as u32;
    assert(b.subrange(at, at + 4) =~= s.subrange(0, 4));
    assert(s.subrange(0, 4) =~= bytes32(low));
    assert(b.subrange(at + 4, at + 8) =~= s.subrange(4, 8));
    assert(s.subrange(4, 8) =~= bytes32(high));
    le32_of_bytes32(b, at, low);
    le32_of_bytes32(b, at + 4, high);
}

/// Reads the 16-bit little-endian integer at `at`.
pub fn read_u16(b: &[u8], at: usize) -> (r: u16)
    requires
        at + 2 <= b@.len(),
    ensures
        r == le16(b@, at as int),
{
    b[at] as u16 + 0x100 * (b[at + 1] as u16)
}

/// Reads the 32-bit little-endian integer at `at`.
pub fn read_u32(b: &[u8], at: usize) -> (r: u32)
    requires
        at + 4 <= b@.len(),
    ensures
        r == le32(b@, at as int),
{
    b[at] as u32 + 0x100 * (b[at + 1] as u32) + 0x1_0000 * (b[at + 2] as u32) + 0x100_0000 * (
    b[at + 3] as u32)
}

/// Reads the 64-bit little-endian integer at `at`.
pub fn read_u64(b: &[u8], at: usize) -> (r: u64)
    requires
        at + 8 <= b@.len(),
    ensures
        r == le64(b@, at as int),
{
    let n: usize = b.len();
    assert(at + 8 <= n);
    read_u32(b, at) as u64 + 0x1_0000_0000 * (read_u32(b, at + 4) as u64)
}

/// Reads a 16-byte field at `at`.
pub fn read_array16(b: &[u8], at: usize) -> (r: [u8; 16])
    requires
        at + 16 <= b@.len(),
    ensures
        r@ == b@.subrange(at as int, at + 16),
{
    let n: usize = b.len();
    let mut r: [u8; 16] = [0u8; 16];
    let mut i: usize = 0;
    while i < 16
        invariant
            i <= 16,
            at + 16 <= n,
            n == b@.len(),
            forall|j: int| 0 <= j < i ==> r@[j] == b@[at + j],
        decreases 16 - i,
    {
        r[i] = b[at + i];
        i += 1;
    }
    assert(r@ =~= b@.subrange(at as int, at + 16));
    r
}

/// Copies the bytes from `from` to `to`.
pub fn copy_range(b: &[u8], from: usize, to: usize) -> (r: Vec<u8>)
    requires
        from <= to <= b@.len(),
    ensures
        r@ == b@.subrange(from as int, to as int),
{
    slice_to_vec(slice_subrange(b, from, to))
}

/// Appends a byte string.
pub fn put_bytes(out: &mut Vec<u8>, s: &[u8])
    ensures
        final(out)@ == old(out)@ + s@,
{
    out.extend_from_slice(s);
    assert(out@ =~= old(out)@ + s@);
}

/// Appends a 16-bit integer.
pub fn put_u16(out: &mut Vec<u8>, x: u16)
    ensures
        final(out)@ == old(out)@ + bytes16(x),
{
    out.push((x % 0x100) as u8);
    out.push((x / 0x100) as u8);
    assert(out@ =~= old(out)@ + bytes16(x));
}

/// Appends a 32-bit integer.
pub fn put_u32(out: &mut Vec<u8>, x: u32)
    ensures
        final(out)@ == old(out)@ + bytes32(x),
{
    out.push((x % 0x100) as u8);
    out.push((x / 0x100 % 0x100) as u8);
    out.push((x / 0x1_0000 % 0x100) as u8);
    out.push((x / 0x100_0000) as u8);
    assert(out@ =~= old(out)@ + bytes32(x));
}

/// Appends a 64-bit integer.
pub fn put_u64(out: &mut Vec<u8>, x: u64)
    ensures
        final(out)@ == old(out)@ + bytes64(x),
{
    put_u32(out, (x % 0x1_0000_0000) as u32);
    put_u32(out, (x / 0x1_0000_0000) as u32);
    assert(out@ =~= old(out)@ + bytes64(x));
}

/// Appends `n` zero bytes.
pub fn put_zeros(out: &mut Vec<u8>, n: usize)
    ensures
        final(out)@ == old(out)@ + zeros(n as int),
{
    let mut i: usize = 0;
    while i < n
        invariant
            i <= n,
            out@ == old(out)@ + zeros(i as int),
        decreases n - i,
    {
        out.push(0);
        i += 1;
        assert(out@ =~= old(out)@ + zeros(i as int));
    }
}

/// `b` with `v` written over it from `at` on.
pub open spec fn overwritten(b: Seq<u8>, at: int, v: Seq<u8>) -> Seq<u8> {
    Seq::new(b.len(), |i: int| if at <= i < at + v.len() { v[i - at] } else { b[i] })
}

/// Writes a 32-bit integer over the four bytes at `at`.
pub fn set_u32(out: &mut Vec<u8>, at: usize, x: u32)
    requires
        at + 4 <= old(out)@.len(),
    ensures
        final(out)@ == overwritten(old(out)@, at as int, bytes32(x)),
{
    let n: usize = out.len();
    assert(at + 4 <= n);
    out[at] = (x % 0x100) as u8;
    out[at + 1] = (x / 0x100 % 0x100) as u8;
    out[at + 2] = (x / 0x1_0000 % 0x100) as u8;
    out[at + 3] = (x / 0x100_0000) as u8;
    assert(out@ =~= overwritten(old(out)@, at as int, bytes32(x)));
}

/// Writes a 16-bit integer over the two bytes at `at`.
pub fn set_u16(out: &mut Vec<u8>, at: usize, x: u16)
    requires
        at + 2 <= old(out)@.len(),
    ensures
        final(out)@ == overwritten(old(out)@, at as int, bytes16(x)),
{
    let n: usize = out.len();
    assert(at + 2 <= n);
    out[at] = (x % 0x100) as u8;
    out[at + 1] = (x / 0x100) as u8;
    assert(out@ =~= overwritten(old(out)@, at as int, bytes16(x)));
}

/// Whether two 16-byte keys are equal.
pub fn array16_equal(a: &[u8; 16], b: &[u8; 16]) -> (r: bool)
    ensures
        r == (*a == *b),
{
    let mut i: usize = 0;
    while i < 16
        invariant
            i <= 16,
            forall|j: int| 0 <= j < i ==> a@[j] == b@[j],
        decreases 16 - i,
    {
        if a[i] != b[i] {
            assert(a@[i as int] != b@[i as int]);
            return false;
        }
        i += 1;
    }
    assert(a@ =~= b@);
    assert(*a =~= *b);
    true
}

} // verus!
