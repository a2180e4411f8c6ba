//! LOCK request and response.

use crate::proto::error::{ProtoError, ProtoResult};
use crate::proto::messages::create::FileId;
use crate::wire;
use vstd::prelude::*;

verus! {

/// A byte range to lock or to unlock.
#[derive(Debug, Clone, Copy, PartialEq, Eq, Structural)]
pub struct LockElement {
    pub offset: u64,
    pub length: u64,
    pub flags: u32,
    pub reserved: u32,
}

impl LockElement {
    pub const FLAG_SHARED_LOCK: u32 = 0x0000_0001;

    pub const FLAG_EXCLUSIVE_LOCK: u32 = 0x0000_0002;

    pub const FLAG_UNLOCK: u32 = 0x0000_0004;

    pub const FLAG_FAIL_IMMEDIATELY: u32 = 0x0000_0010;

    /// Whether the fields are what the bytes at `at` hold.
    pub open spec fn decodes(self, buf: Seq<u8>, at: int) -> bool {
        &&& self.offset == wire::le64(buf, at)
        &&& self.length == wire::le64(buf, at + 8)
        &&& self.flags == wire::le32(buf, at + 16)
        &&& self.reserved == wire::le32(buf, at + 20)
    }

    /// The bytes of the element.
    #[verifier::opaque]
    pub open spec fn encoding(self) -> Seq<u8> {
        wire::bytes64(self.offset) + wire::bytes64(self.length) + wire::bytes32(self.flags)
            + wire::bytes32(self.reserved)
    }
}

/// The bytes of a list of elements.
pub open spec fn elements_bytes(s: Seq<LockElement>) -> Seq<u8>
    decreases s.len(),
{
    if s.len() == 0 {
        Seq::empty()
    } else {
        elements_bytes(s.drop_last()) + s.last().encoding()
    }
}

/// LOCK request.
#[derive(Debug, Clone, PartialEq, Eq)]
pub struct LockRequest {
    pub structure_size: u16,
    pub lock_count: u16,
    pub lock_sequence: u32,
    pub file_id: FileId,
    pub locks: Vec<LockElement>,
}

impl LockRequest {
    /// The error that a body is refused with.
    pub open spec fn parse_error(buf: Seq<u8>) -> Option<ProtoError> {
        if buf.len() < 48 {
            Some(ProtoError::Malformed("lock request too short"))
        } else if wire::le16(buf, 0) != 48 {
            Some(ProtoError::Malformed("lock request structure_size != 48"))
        } else if wire::le16(buf, 2) == 0 {
            Some(ProtoError::Malformed("lock request lock_count == 0"))
        } else if buf.len() < 24 + 24 * wire::le16(buf, 2) {
            Some(ProtoError::Malformed("lock request elements truncated"))
        } else {
            None
        }
    }

    /// Whether the fields are what a body holds.
    pub open spec fn decodes(&self, buf: Seq<u8>) -> bool {
        &&& self.structure_size == wire::le16(buf, 0)
        &&& self.lock_count == wire::le16(buf, 2)
        &&& self.lock_sequence == wire::le32(buf, 4)
        &&& self.file_id.persistent == wire::le64(buf, 8)
        &&& self.file_id.volatile == wire::le64(buf, 16)
        &&& self.locks@.len() == self.lock_count
        &&& forall|i: int|
            0 <= i < self.lock_count ==> (#[trigger] self.locks@[i]).decodes(buf, 24 + 24 * i)
    }

    /// The bytes of the body.
    pub open spec fn encoding(&self) -> Seq<u8> {
        wire::bytes16(self.structure_size) + wire::bytes16(self.lock_count) + wire::bytes32(
            self.lock_sequence,
        ) + wire::bytes64(self.file_id.persistent) + wire::bytes64(self.file_id.volatile)
            + elements_bytes(self.locks@)
    }

    /// Whether the elements have the number that the count gives.
    pub open spec fn canonical(&self) -> bool {
        &&& self.structure_size == 48
        &&& self.lock_count == self.locks@.len()
        &&& self.lock_count > 0
    }

    /// Reads a body.
    pub fn parse(buf: &[u8]) -> (r: ProtoResult<Self>)
        ensures
            match r {
                Ok(m) => Self::parse_error(buf@) is None && m.decodes(buf@),
                Err(e) => Self::parse_error(buf@) == Some(e),
            },
    {
        if buf.len() < 48 {
            return Err(ProtoError::Malformed("lock request too short"));
        }
        if wire::read_u16(buf, 0) != 48 {
            return Err(ProtoError::Malformed("lock request structure_size != 48"));
        }
        let lock_count: u16 = wire::read_u16(buf, 2);
        if lock_count == 0 {
            return Err(ProtoError::Malformed("lock request lock_count == 0"));
        }
        let count: usize = lock_count as usize;
        if buf.len() < 24 + 24 * count {
            return Err(ProtoError::Malformed("lock request elements truncated"));
        }
        let mut locks: Vec<LockElement> = Vec::new();
        let mut i: usize = 0;
        while i < count
            invariant
                i <= count <= 0xffff,
                24 + 24 * count <= buf@.len(),
                locks@.len() == i,
                forall|j: int| 0 <= j < i ==> (#[trigger] locks@[j]).decodes(buf@, 24 + 24 * j),
            decreases count - i,
        {
            let at: usize = 24 + 24 * i;
            locks.push(
                LockElement {
                    offset: wire::read_u64(buf, at),
                    length: wire::read_u64(buf, at + 8),
                    flags: wire::read_u32(buf, at + 16),
                    reserved: wire::read_u32(buf, at + 20),
                },
            );
            i += 1;
        }
        Ok(
            Self {
                structure_size: wire::read_u16(buf, 0),
                lock_count,
                lock_sequence: wire::read_u32(buf, 4),
                file_id: FileId {
                    persistent: wire::read_u64(buf, 8),
                    volatile: wire::read_u64(buf, 16),
                },
                locks,
            },
        )
    }

    /// Appends the bytes of the body.
    pub fn write_to(&self, out: &mut Vec<u8>) -> (r: ProtoResult<()>)
        ensures
            r is Ok,
            final(out)@ == old(out)@ + self.encoding(),
    {
        wire::put_u16(out, self.structure_size);
        wire::put_u16(out, self.lock_count);
        wire::put_u32(out, self.lock_sequence);
        wire::put_u64(out, self.file_id.persistent);
        wire::put_u64(out, self.file_id.volatile);
        let ghost fixed = out@;
        let mut i: usize = 0;
        while i < self.locks.len()
            invariant
                i <= self.locks@.len(),
                out@ == fixed + elements_bytes(self.locks@.take(i as int)),
            decreases self.locks@.len() - i,
        {
            let e = self.locks[i];
            let ghost before = out@;
            wire::put_u64(out, e.offset);
            wire::put_u64(out, e.length);
            wire::put_u32(out, e.flags);
            wire::put_u32(out, e.reserved);
            i += 1;
            assert(out@ =~= before + e.encoding()) by {
                reveal(LockElement::encoding);
            }
            assert(self.locks@.take(i as int).drop_last() =~= self.locks@.take(i - 1));
            assert(out@ =~= fixed + elements_bytes(self.locks@.take(i as int)));
        }
        assert(self.locks@.take(i as int) =~= self.locks@);
        assert(out@ =~= old(out)@ + self.encoding());
        Ok(())
    }
}

proof fn lemma_elements_part(s: Seq<LockElement>, i: int)
    requires
        0 <= i < s.len(),
    ensures
        elements_bytes(s).len() == 24 * s.len(),
        elements_bytes(s).subrange(24 * i, 24 * i + 24) == s[i].encoding(),
    decreases s.len(),
{
    lemma_elements_len(s);
    lemma_elements_len(s.drop_last());
    let front = elements_bytes(s.drop_last());
    if i < s.len() - 1 {
        lemma_elements_part(s.drop_last(), i);
        assert(elements_bytes(s).subrange(24 * i, 24 * i + 24) =~= front.subrange(
            24 * i,
            24 * i + 24,
        ));
    } else {
        assert(elements_bytes(s).subrange(24 * i, 24 * i + 24) =~= s[i].encoding());
    }
}

proof fn lemma_element_read(b: Seq<u8>, at: int, e: LockElement)
    requires
        0 <= at,
        at + 24 <= b.len(),
        b.subrange(at, at + 24) == e.encoding(),
    ensures
        e.decodes(b, at),
{
    reveal(LockElement::encoding);
    let x = e.encoding();
    let p = b.subrange(at, at + 24);
    assert(b.subrange(at, at + 8) =~= p.subrange(0, 8));
    assert(x.subrange(0, 8) =~= wire::bytes64(e.offset));
    wire::le64_of_bytes64(b, at, e.offset);
    assert(b.subrange(at + 8, at + 16) =~= p.subrange(8, 16));
    assert(x.subrange(8, 16) =~= wire::bytes64(e.length));
    wire::le64_of_bytes64(b, at + 8, e.length);
    assert(b.subrange(at + 16, at + 20) =~= p.subrange(16, 20));
    assert(x.subrange(16, 20) =~= wire::bytes32(e.flags));
    wire::le32_of_bytes32(b, at + 16, e.flags);
    assert(b.subrange(at + 20, at + 24) =~= p.subrange(20, 24));
    assert(x.subrange(20, 24) =~= wire::bytes32(e.reserved));
    wire::le32_of_bytes32(b, at + 20, e.reserved);
}

proof fn lemma_elements_len(s: Seq<LockElement>)
    ensures
        elements_bytes(s).len() == 24 * s.len(),
    decreases s.len(),
{
    if s.len() > 0 {
        reveal(LockElement::encoding);
        lemma_elements_len(s.drop_last());
    }
}

/// The elements of a body lie behind its first 24 bytes, 24 bytes each: an offset, a length,
/// flags and a reserved field.
pub proof fn elements_are_written_in_place(m: LockRequest)
    ensures
        m.encoding().len() == 24 + 24 * m.locks@.len(),
        forall|i: int|
            0 <= i < m.locks@.len() ==> {
                &&& wire::le64(m.encoding(), 24 + 24 * i) == (#[trigger] m.locks@[i]).offset
                &&& wire::le64(m.encoding(), 32 + 24 * i) == m.locks@[i].length
                &&& wire::le32(m.encoding(), 40 + 24 * i) == m.locks@[i].flags
                &&& wire::le32(m.encoding(), 44 + 24 * i) == m.locks@[i].reserved
            },
{
    let b = m.encoding();
    lemma_elements_len(m.locks@);
    assert forall|i: int| 0 <= i < m.locks@.len() implies {
        &&& wire::le64(b, 24 + 24 * i) == (#[trigger] m.locks@[i]).offset
        &&& wire::le64(b, 32 + 24 * i) == m.locks@[i].length
        &&& wire::le32(b, 40 + 24 * i) == m.locks@[i].flags
        &&& wire::le32(b, 44 + 24 * i) == m.locks@[i].reserved
    } by {
        lemma_elements_part(m.locks@, i);
        let all = elements_bytes(m.locks@);
        assert(b.subrange(24 + 24 * i, 24 + 24 * i + 24) =~= all.subrange(24 * i, 24 * i + 24));
        lemma_element_read(b, 24 + 24 * i, m.locks@[i]);
        assert(24 + 24 * i + 8 == 32 + 24 * i);
        assert(24 + 24 * i + 16 == 40 + 24 * i);
        assert(24 + 24 * i + 20 == 44 + 24 * i);
    }
}

/// A body that is written in its canonical layout is read back as it was.
pub proof fn lock_request_round_trips(m: LockRequest)
    requires
        m.canonical(),
    ensures
        LockRequest::parse_error(m.encoding()) is None,
        m.decodes(m.encoding()),
{
    let b = m.encoding();
    lemma_elements_len(m.locks@);
    assert(b.len() == 24 + 24 * m.locks@.len());
    assert(b.subrange(0, 2) =~= wire::bytes16(m.structure_size));
    wire::le16_of_bytes16(b, 0, m.structure_size);
    assert(b.subrange(2, 4) =~= wire::bytes16(m.lock_count));
    wire::le16_of_bytes16(b, 2, m.lock_count);
    assert(b.subrange(4, 8) =~= wire::bytes32(m.lock_sequence));
    wire::le32_of_bytes32(b, 4, m.lock_sequence);
    assert(b.subrange(8, 16) =~= wire::bytes64(m.file_id.persistent));
    wire::le64_of_bytes64(b, 8, m.file_id.persistent);
    assert(b.subrange(16, 24) =~= wire::bytes64(m.file_id.volatile));
    wire::le64_of_bytes64(b, 16, m.file_id.volatile);
    assert(b.subrange(24, 24int + elements_bytes(m.locks@).len()) =~= elements_bytes(m.locks@));
    assert forall|i: int| 0 <= i < m.lock_count implies (#[trigger] m.locks@[i]).decodes(
        b,
        24 + 24 * i,
    ) by {
        lemma_elements_part(m.locks@, i);
        let all = elements_bytes(m.locks@);
        assert(b.subrange(24 + 24 * i, 24 + 24 * i + 24) =~= all.subrange(24 * i, 24 * i + 24));
        lemma_element_read(b, 24 + 24 * i, m.locks@[i]);
    }
}

/// LOCK response.
#[derive(Debug, Clone, PartialEq, Eq)]
pub struct LockResponse {
    pub structure_size: u16,
    pub reserved: u16,
}

impl Default for LockResponse {
    fn default() -> (r: Self)
        ensures
            r == (Self { structure_size: 4, reserved: 0 }),
    {
        Self { structure_size: 4, reserved: 0 }
    }
}

impl LockResponse {
    /// The error that a body is refused with.
    pub open spec fn parse_error(buf: Seq<u8>) -> Option<ProtoError> {
        if buf.len() < 4 {
            Some(ProtoError::Malformed("lock response too short"))
        } else if wire::le16(buf, 0) != 4 {
            Some(ProtoError::Malformed("lock response structure_size != 4"))
        } else {
            None
        }
    }

    /// Whether the fields are what a body holds.
    pub open spec fn decodes(&self, buf: Seq<u8>) -> bool {
        &&& self.structure_size == wire::le16(buf, 0)
        &&& self.reserved == wire::le16(buf, 2)
    }

    /// The bytes of the body.
    pub open spec fn encoding(&self) -> Seq<u8> {
        wire::bytes16(self.structure_size) + wire::bytes16(self.reserved)
    }

    /// Whether the counted parts follow the fixed part and have the lengths that
    /// the fields give.
    pub open spec fn canonical(&self) -> bool {
        &&& self.structure_size == 4
    }

    /// Reads a body.
    pub fn parse(buf: &[u8]) -> (r: ProtoResult<Self>)
        ensures
            match r {
                Ok(m) => Self::parse_error(buf@) is None && m.decodes(buf@),
                Err(e) => Self::parse_error(buf@) == Some(e),
            },
    {
        if buf.len() < 4 {
            return Err(ProtoError::Malformed("lock response too short"));
        }
        if wire::read_u16(buf, 0) != 4 {
            return Err(ProtoError::Malformed("lock response structure_size != 4"));
        }
        Ok(
            Self {
                structure_size: wire::read_u16(buf, 0),
                reserved: wire::read_u16(buf, 2),
            },
        )
    }

    /// Appends the bytes of the body.
    pub fn write_to(&self, out: &mut Vec<u8>) -> (r: ProtoResult<()>)
        ensures
            r is Ok,
            final(out)@ == old(out)@ + self.encoding(),
    {
        wire::put_u16(out, self.structure_size);
        wire::put_u16(out, self.reserved);
        assert(out@ =~= old(out)@ + self.encoding());
        Ok(())
    }
}

/// A body that is written in its canonical layout is read back as it was.
pub proof fn lock_response_round_trips(m: LockResponse)
    requires
        m.canonical(),
    ensures
        LockResponse::parse_error(m.encoding()) is None,
        m.decodes(m.encoding()),
{
    let b = m.encoding();
    assert(m.encoding().len() == 4);
    assert(b.subrange(0, 2) =~= wire::bytes16(m.structure_size));
    wire::le16_of_bytes16(b, 0, m.structure_size);
    assert(b.subrange(2, 4) =~= wire::bytes16(m.reserved));
    wire::le16_of_bytes16(b, 2, m.reserved);
}

} // verus!
