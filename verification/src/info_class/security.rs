//! Self-relative security descriptors: a header of twenty bytes with the offsets of
//! owner, group, system list and access list.

use crate::wire;
use vstd::prelude::*;
use vstd::slice::{slice_subrange, slice_to_vec};

verus! {

/// Entry that allows access.
pub const ACCESS_ALLOWED_ACE_TYPE: u8 = 0;

/// Entry that denies access.
pub const ACCESS_DENIED_ACE_TYPE: u8 = 1;

/// Entry that files of a directory inherit.
pub const OBJECT_INHERIT_ACE: u8 = 0x01;

/// Entry that directories of a directory inherit.
pub const CONTAINER_INHERIT_ACE: u8 = 0x02;

/// The descriptor has an access list.
pub const SE_DACL_PRESENT: u16 = 0x0004;

/// The descriptor has a system list.
pub const SE_SACL_PRESENT: u16 = 0x0010;

/// The descriptor is self-relative.
pub const SE_SELF_RELATIVE: u16 = 0x8000;

/// The owner is asked for.
pub const OWNER_SECURITY_INFORMATION: u32 = 0x0000_0001;

/// The group is asked for.
pub const GROUP_SECURITY_INFORMATION: u32 = 0x0000_0002;

/// The access list is asked for.
pub const DACL_SECURITY_INFORMATION: u32 = 0x0000_0004;

/// The system list is asked for.
pub const SACL_SECURITY_INFORMATION: u32 = 0x0000_0008;

/// All rights on a file.
pub const FILE_ALL_ACCESS: u32 = 0x001f_01ff;

// ---------------------------------------------------------------------------
// Descriptors of the server's own
// ---------------------------------------------------------------------------

/// The security id of everyone.
pub open spec fn everyone() -> Seq<u8> {
    seq![1u8, 1, 0, 0, 0, 0, 0, 1, 0, 0, 0, 0]
}

/// A descriptor that everyone owns and that allows everyone all rights.
pub open spec fn minimal_descriptor() -> Seq<u8> {
    let header = seq![1u8, 0] + wire::bytes16(0x8004) + wire::bytes32(20) + wire::bytes32(0)
        + wire::bytes32(0) + wire::bytes32(32);
    let acl_header = seq![2u8, 0] + wire::bytes16(28) + wire::bytes16(1) + wire::bytes16(0);
    let ace = seq![ACCESS_ALLOWED_ACE_TYPE, 0] + wire::bytes16(20) + wire::bytes32(FILE_ALL_ACCESS)
        + everyone();
    header + everyone() + acl_header + ace
}

fn put_everyone(out: &mut Vec<u8>)
    ensures
        final(out)@ == old(out)@ + everyone(),
{
    let sid: [u8; 12] = [1, 1, 0, 0, 0, 0, 0, 1, 0, 0, 0, 0];
    assert(sid@ =~= everyone());
    wire::put_bytes(out, sid.as_slice());
}

/// Makes a descriptor that everyone owns and that allows everyone all rights.
pub fn encode_minimal_security_descriptor() -> (r: Vec<u8>)
    ensures
        r@ == minimal_descriptor(),
{
    let mut sd: Vec<u8> = Vec::new();
    sd.push(1);
    sd.push(0);
    wire::put_u16(&mut sd, 0x8004);
    wire::put_u32(&mut sd, 20);
    wire::put_u32(&mut sd, 0);
    wire::put_u32(&mut sd, 0);
    wire::put_u32(&mut sd, 32);
    let ghost header = seq![1u8, 0] + wire::bytes16(0x8004) + wire::bytes32(20) + wire::bytes32(0)
        + wire::bytes32(0) + wire::bytes32(32);
    assert(sd@ =~= header);
    put_everyone(&mut sd);
    sd.push(2);
    sd.push(0);
    wire::put_u16(&mut sd, 28);
    wire::put_u16(&mut sd, 1);
    wire::put_u16(&mut sd, 0);
    let ghost acl_header = seq![2u8, 0] + wire::bytes16(28) + wire::bytes16(1) + wire::bytes16(0);
    assert(sd@ =~= header + everyone() + acl_header);
    sd.push(ACCESS_ALLOWED_ACE_TYPE);
    sd.push(0);
    wire::put_u16(&mut sd, 20);
    wire::put_u32(&mut sd, FILE_ALL_ACCESS);
    put_everyone(&mut sd);
    assert(sd@ =~= minimal_descriptor());
    sd
}

/// A descriptor whose access list is present and nil.
pub open spec fn nil_dacl_descriptor() -> Seq<u8> {
    seq![1u8, 0] + wire::bytes16(0x8004) + wire::zeros(16)
}

/// Makes a descriptor whose access list is present and nil.
pub fn encode_nil_dacl_security_descriptor() -> (r: Vec<u8>)
    ensures
        r@ == nil_dacl_descriptor(),
{
    let mut out: Vec<u8> = Vec::new();
    out.push(1);
    out.push(0);
    wire::put_u16(&mut out, 0x8004);
    wire::put_zeros(&mut out, 16);
    assert(out@ =~= nil_dacl_descriptor());
    out
}

/// Whether a descriptor is whole and has an access list.
pub open spec fn has_dacl(sd: Seq<u8>) -> bool {
    sd.len() >= 20 && (wire::le16(sd, 2) as u16) & SE_DACL_PRESENT != 0
}

fn security_descriptor_has_dacl(descriptor: &[u8]) -> (r: bool)
    ensures
        r == has_dacl(descriptor@),
{
    descriptor.len() >= 20 && wire::read_u16(descriptor, 2) & SE_DACL_PRESENT != 0
}

/// What is stored of a descriptor that a client sets: the descriptor, or one with a nil
/// access list where it has none; `None` where it is too short.
pub fn normalize_set_security_descriptor(descriptor: &[u8]) -> (r: Option<Vec<u8>>)
    ensures
        match r {
            None => descriptor@.len() < 20,
            Some(v) => descriptor@.len() >= 20 && v@ == if has_dacl(descriptor@) {
                descriptor@
            } else {
                nil_dacl_descriptor()
            },
        },
{
    if descriptor.len() < 20 {
        return None;
    }
    if security_descriptor_has_dacl(descriptor) {
        Some(slice_to_vec(descriptor))
    } else {
        Some(encode_nil_dacl_security_descriptor())
    }
}

// ---------------------------------------------------------------------------
// Access lists
// ---------------------------------------------------------------------------

/// An entry of an access list.
#[derive(Debug, Clone, Copy)]
pub struct SecurityAce {
    pub ace_type: u8,
    pub flags: u8,
    pub mask: u32,
}

/// The access list of a descriptor.
pub open spec fn dacl_of(sd: Seq<u8>) -> Option<Seq<u8>> {
    let at = wire::le32(sd, 16);
    if !has_dacl(sd) || at < 20 || at + 8 > sd.len() {
        None
    } else if wire::le16(sd, at + 2) < 8 || at + wire::le16(sd, at + 2) > sd.len() {
        None
    } else {
        Some(sd.subrange(at, at + wire::le16(sd, at + 2)))
    }
}

/// The `count` entries of an access list from `at` on.
pub open spec fn aces_from(dacl: Seq<u8>, at: int, count: int) -> Option<Seq<SecurityAce>>
    decreases count,
{
    if count <= 0 {
        Some(Seq::empty())
    } else if at + 8 > dacl.len() || wire::le16(dacl, at + 2) < 8 || at + wire::le16(dacl, at + 2)
        > dacl.len() {
        None
    } else {
        match aces_from(dacl, at + wire::le16(dacl, at + 2), count - 1) {
            None => None,
            Some(rest) => Some(
                seq![
                    SecurityAce {
                        ace_type: dacl[at],
                        flags: dacl[at + 1],
                        mask: wire::le32(dacl, at + 4) as u32,
                    },
                ] + rest,
            ),
        }
    }
}

/// The entries of the access list of a descriptor.
pub open spec fn aces_of(sd: Seq<u8>) -> Option<Seq<SecurityAce>> {
    match dacl_of(sd) {
        None => None,
        Some(dacl) => aces_from(dacl, 8, wire::le16(dacl, 4)),
    }
}

fn security_descriptor_dacl(descriptor: &[u8]) -> (r: Option<&[u8]>)
    ensures
        match r {
            None => dacl_of(descriptor@) is None,
            Some(d) => dacl_of(descriptor@) == Some(d@) && d@.len() >= 8 && d@.len() == wire::le16(
                d@,
                2,
            ),
        },
{
    if !security_descriptor_has_dacl(descriptor) {
        return None;
    }
    let n: usize = descriptor.len();
    let at: u32 = wire::read_u32(descriptor, 16);
    if at < 20 || n < 8 || at as u64 > (n - 8) as u64 {
        return None;
    }
    let at: usize = at as usize;
    let size: usize = wire::read_u16(descriptor, at + 2) as usize;
    if size < 8 || size > n - at {
        return None;
    }
    let dacl: &[u8] = slice_subrange(descriptor, at, at + size);
    assert(dacl@[2] == descriptor@[at + 2] && dacl@[3] == descriptor@[at + 3]);
    Some(dacl)
}

fn security_descriptor_aces(descriptor: &[u8]) -> (r: Option<Vec<SecurityAce>>)
    ensures
        match r {
            None => aces_of(descriptor@) is None,
            Some(v) => aces_of(descriptor@) == Some(v@),
        },
{
    let dacl: &[u8] = match security_descriptor_dacl(descriptor) {
        None => {
            return None;
        },
        Some(dacl) => dacl,
    };
    let n: usize = dacl.len();
    let count: u16 = wire::read_u16(dacl, 4);
    let mut at: usize = 8;
    let mut out: Vec<SecurityAce> = Vec::new();
    let mut left: u16 = count;
    let ghost whole = aces_from(dacl@, 8, count as int);
    proof {
        if let Some(all) = whole {
            assert(out@ + all =~= all);
        }
    }
    while left > 0
        invariant
            n == dacl@.len(),
            n <= 0xffff,
            8 <= at <= n,
            aces_of(descriptor@) == whole,
            whole is None <==> aces_from(dacl@, at as int, left as int) is None,
            whole matches Some(all) ==> all == out@ + aces_from(dacl@, at as int, left as int)->0,
        decreases left,
    {
        if at + 8 > n {
            return None;
        }
        let size: usize = wire::read_u16(dacl, at + 2) as usize;
        if size < 8 || at + size > n {
            return None;
        }
        let ghost before = out@;
        let ace = SecurityAce {
            ace_type: dacl[at],
            flags: dacl[at + 1],
            mask: wire::read_u32(dacl, at + 4),
        };
        out.push(ace);
        proof {
            if let Some(rest) = aces_from(dacl@, at + size, left - 1) {
                assert(out@ + rest =~= before + (seq![ace] + rest));
            }
        }
        at += size;
        left -= 1;
    }
    proof {
        if let Some(all) = whole {
            assert(out@ =~= all);
        }
    }
    Some(out)
}

/// The rights on files that a mask stands for.
pub open spec fn expanded(access: u32) -> u32 {
    if access & 0x0200_0000 != 0 {
        FILE_ALL_ACCESS
    } else {
        let own = access & FILE_ALL_ACCESS;
        let all = if access & 0x1000_0000 != 0 {
            own | FILE_ALL_ACCESS
        } else {
            own
        };
        let read = if access & 0x8000_0000 != 0 {
            all | 0x0012_0089
        } else {
            all
        };
        let write = if access & 0x4000_0000 != 0 {
            read | 0x0012_0116
        } else {
            read
        };
        if access & 0x2000_0000 != 0 {
            write | 0x0012_00a0
        } else {
            write
        }
    }
}

fn expand_file_access_mask(access: u32) -> (r: u32)
    ensures
        r == expanded(access),
{
    if access & 0x0200_0000 != 0 {
        return FILE_ALL_ACCESS;
    }
    let mut r: u32 = access & FILE_ALL_ACCESS;
    if access & 0x1000_0000 != 0 {
        r = r | FILE_ALL_ACCESS;
    }
    if access & 0x8000_0000 != 0 {
        r = r | 0x0012_0089;
    }
    if access & 0x4000_0000 != 0 {
        r = r | 0x0012_0116;
    }
    if access & 0x2000_0000 != 0 {
        r = r | 0x0012_00a0;
    }
    r
}

/// The rights that the entries of one type name together.
pub open spec fn mask_of(aces: Seq<SecurityAce>, ace_type: u8) -> u32
    decreases aces.len(),
{
    if aces.len() == 0 {
        0
    } else if aces.last().ace_type == ace_type {
        mask_of(aces.drop_last(), ace_type) | expanded(aces.last().mask)
    } else {
        mask_of(aces.drop_last(), ace_type)
    }
}

/// Whether an access list refuses rights: it has no entry, an entry denies one of them,
/// or no entry allows one of them. A list that cannot be read refuses nothing.
pub open spec fn denies(sd: Seq<u8>, access: u32) -> bool {
    if !has_dacl(sd) {
        false
    } else if dacl_of(sd) is Some && wire::le16(dacl_of(sd)->0, 4) == 0 {
        true
    } else {
        match aces_of(sd) {
            None => false,
            Some(aces) => {
                let allowed = mask_of(aces, ACCESS_ALLOWED_ACE_TYPE);
                let denied = mask_of(aces, ACCESS_DENIED_ACE_TYPE);
                denied & access != 0 || if allowed == 0 {
                    access != 0
                } else {
                    access & !allowed != 0
                }
            },
        }
    }
}

fn security_descriptor_access_masks(descriptor: &[u8]) -> (r: Option<(u32, u32)>)
    ensures
        match r {
            None => aces_of(descriptor@) is None,
            Some(m) => aces_of(descriptor@) matches Some(aces) && m == (
                mask_of(aces, ACCESS_ALLOWED_ACE_TYPE),
                mask_of(aces, ACCESS_DENIED_ACE_TYPE),
            ),
        },
{
    let aces: Vec<SecurityAce> = match security_descriptor_aces(descriptor) {
        None => {
            return None;
        },
        Some(aces) => aces,
    };
    let mut allowed: u32 = 0;
    let mut denied: u32 = 0;
    let mut i: usize = 0;
    while i < aces.len()
        invariant
            i <= aces@.len(),
            allowed == mask_of(aces@.take(i as int), ACCESS_ALLOWED_ACE_TYPE),
            denied == mask_of(aces@.take(i as int), ACCESS_DENIED_ACE_TYPE),
        decreases aces@.len() - i,
    {
        let ace: SecurityAce = aces[i];
        if ace.ace_type == ACCESS_ALLOWED_ACE_TYPE {
            allowed = allowed | expand_file_access_mask(ace.mask);
        } else if ace.ace_type == ACCESS_DENIED_ACE_TYPE {
            denied = denied | expand_file_access_mask(ace.mask);
        }
        assert(aces@.take(i + 1).drop_last() =~= aces@.take(i as int));
        assert(aces@.take(i + 1).last() == ace);
        i += 1;
    }
    assert(aces@.take(i as int) =~= aces@);
    Some((allowed, denied))
}

fn security_descriptor_has_empty_dacl(descriptor: &[u8]) -> (r: bool)
    ensures
        r == (dacl_of(descriptor@) is Some && wire::le16(dacl_of(descriptor@)->0, 4) == 0),
{
    match security_descriptor_dacl(descriptor) {
        None => false,
        Some(dacl) => wire::read_u16(dacl, 4) == 0,
    }
}

/// Whether the access list of a descriptor refuses rights.
pub fn security_descriptor_denies_access(descriptor: &[u8], access: u32) -> (r: bool)
    ensures
        r == denies(descriptor@, access),
{
    if !security_descriptor_has_dacl(descriptor) {
        return false;
    }
    if security_descriptor_has_empty_dacl(descriptor) {
        return true;
    }
    match security_descriptor_access_masks(descriptor) {
        None => false,
        Some((allowed, denied)) => {
            if denied & access != 0 {
                true
            } else if allowed == 0 {
                access != 0
            } else {
                access & !allowed != 0
            }
        },
    }
}

/// Whether an entry denies one of the given rights.
pub open spec fn ace_denies(ace: SecurityAce, access: u32) -> bool {
    ace.ace_type == ACCESS_DENIED_ACE_TYPE && ace.mask & access != 0
}

/// Whether directories, or else files, inherit an entry.
pub open spec fn ace_inherited(ace: SecurityAce, directory: bool) -> bool {
    if directory {
        ace.flags & CONTAINER_INHERIT_ACE != 0
    } else {
        ace.flags & OBJECT_INHERIT_ACE != 0
    }
}

/// Whether an entry of the access list denies one of the given rights.
pub fn security_descriptor_has_deny_ace(descriptor: &[u8], access: u32) -> (r: bool)
    ensures
        r == (aces_of(descriptor@) matches Some(aces) && exists|i: int|
            0 <= i < aces.len() && ace_denies(#[trigger] aces[i], access)),
{
    match security_descriptor_aces(descriptor) {
        None => false,
        Some(aces) => {
            let mut i: usize = 0;
            while i < aces.len()
                invariant
                    i <= aces@.len(),
                    aces_of(descriptor@) == Some(aces@),
                    forall|j: int| 0 <= j < i ==> !ace_denies(#[trigger] aces@[j], access),
                decreases aces@.len() - i,
            {
                if aces[i].ace_type == ACCESS_DENIED_ACE_TYPE && aces[i].mask & access != 0 {
                    assert(ace_denies(aces_of(descriptor@)->0[i as int], access));
                    return true;
                }
                i += 1;
            }
            false
        },
    }
}

/// Whether an entry of the access list is inherited by directories, or else by files.
pub fn security_descriptor_has_inheritable_ace(descriptor: &[u8], directory: bool) -> (r: bool)
    ensures
        r == (aces_of(descriptor@) matches Some(aces) && exists|i: int|
            0 <= i < aces.len() && ace_inherited(#[trigger] aces[i], directory)),
{
    let wanted: u8 = if directory {
        CONTAINER_INHERIT_ACE
    } else {
        OBJECT_INHERIT_ACE
    };
    match security_descriptor_aces(descriptor) {
        None => false,
        Some(aces) => {
            let mut i: usize = 0;
            while i < aces.len()
                invariant
                    i <= aces@.len(),
                    aces_of(descriptor@) == Some(aces@),
                    wanted == if directory {
                        CONTAINER_INHERIT_ACE
                    } else {
                        OBJECT_INHERIT_ACE
                    },
                    forall|j: int| 0 <= j < i ==> !ace_inherited(#[trigger] aces@[j], directory),
                decreases aces@.len() - i,
            {
                if aces[i].flags & wanted != 0 {
                    assert(ace_inherited(aces_of(descriptor@)->0[i as int], directory));
                    return true;
                }
                i += 1;
            }
            false
        },
    }
}

// ---------------------------------------------------------------------------
// Filtering
// ---------------------------------------------------------------------------

/// The length of the section that starts some bytes: a security id or an access list.
pub open spec fn section_len(b: Seq<u8>) -> Option<int> {
    if b.len() < 8 {
        None
    } else if b[0] == 1 && 8 + b[1] * 4 <= b.len() {
        Some(8 + b[1] * 4)
    } else if b[0] == 2 && 8 <= wire::le16(b, 2) <= b.len() {
        Some(wire::le16(b, 2))
    } else {
        None
    }
}

/// The section of a descriptor that the offset field at `field` leads to.
pub open spec fn section_of(sd: Seq<u8>, field: int) -> Option<Seq<u8>> {
    let at = wire::le32(sd, field);
    if at < 20 || at >= sd.len() {
        None
    } else {
        match section_len(sd.skip(at)) {
            None => None,
            Some(len) => Some(sd.subrange(at, at + len)),
        }
    }
}

/// A descriptor that is put together, section by section.
pub struct Filtered {
    /// The bytes so far.
    pub out: Seq<u8>,
    /// The control field.
    pub control: u16,
}

/// The descriptor after the section that the offset field at `field` leads to was copied,
/// where it is asked for.
pub open spec fn with_section(
    sd: Seq<u8>,
    f: Filtered,
    field: int,
    requested: bool,
    present_bit: u16,
) -> Filtered {
    let section = section_of(sd, field);
    if !requested {
        f
    } else {
        let stated = present_bit != 0 && (wire::le16(sd, 2) as u16) & present_bit != 0;
        let control = if stated {
            f.control | present_bit
        } else {
            f.control
        };
        match section {
            None => Filtered { out: f.out, control },
            Some(bytes) => Filtered {
                out: wire::overwritten(f.out, field, wire::bytes32(f.out.len() as u32)) + bytes,
                control: control | present_bit,
            },
        }
    }
}

/// A descriptor with the sections that are asked for; the whole descriptor where nothing
/// is asked for or it is too short.
pub open spec fn filtered(sd: Seq<u8>, information: u32) -> Seq<u8> {
    if information == 0 || sd.len() < 20 {
        sd
    } else {
        let start = Filtered {
            out: seq![sd[0], sd[1]] + wire::zeros(18),
            control: (wire::le16(sd, 2) as u16) & SE_SELF_RELATIVE,
        };
        let owner = with_section(sd, start, 4, information & OWNER_SECURITY_INFORMATION != 0, 0);
        let group = with_section(sd, owner, 8, information & GROUP_SECURITY_INFORMATION != 0, 0);
        let sacl = with_section(
            sd,
            group,
            12,
            information & SACL_SECURITY_INFORMATION != 0,
            SE_SACL_PRESENT,
        );
        let dacl = with_section(
            sd,
            sacl,
            16,
            information & DACL_SECURITY_INFORMATION != 0,
            SE_DACL_PRESENT,
        );
        wire::overwritten(dacl.out, 2, wire::bytes16(dacl.control))
    }
}

fn security_descriptor_section_length(section: &[u8]) -> (r: Option<usize>)
    ensures
        match r {
            None => section_len(section@) is None,
            Some(len) => section_len(section@) == Some(len as int) && len <= section@.len(),
        },
{
    if section.len() < 8 {
        return None;
    }
    if section[0] == 1 {
        let len: usize = 8 + section[1] as usize * 4;
        if len <= section.len() {
            Some(len)
        } else {
            None
        }
    } else if section[0] == 2 {
        let len: usize = wire::read_u16(section, 2) as usize;
        if len >= 8 && len <= section.len() {
            Some(len)
        } else {
            None
        }
    } else {
        None
    }
}

fn copy_security_descriptor_section(
    descriptor: &[u8],
    out: &mut Vec<u8>,
    control: &mut u16,
    field_offset: usize,
    requested: bool,
    present_bit: u16,
)
    requires
        descriptor@.len() >= 20,
        field_offset + 4 <= 20,
        old(out)@.len() >= 20,
    ensures
        final(out)@.len() >= 20,
        (Filtered { out: final(out)@, control: *final(control) }) == with_section(
            descriptor@,
            Filtered { out: old(out)@, control: *old(control) },
            field_offset as int,
            requested,
            present_bit,
        ),
{
    if !requested {
        return;
    }
    if present_bit != 0 && wire::read_u16(descriptor, 2) & present_bit != 0 {
        *control = *control | present_bit;
    }
    let n: usize = descriptor.len();
    let at: u32 = wire::read_u32(descriptor, field_offset);
    if at < 20 || at as u64 >= n as u64 {
        return;
    }
    let at: usize = at as usize;
    let tail: &[u8] = slice_subrange(descriptor, at, n);
    assert(tail@ =~= descriptor@.skip(at as int));
    let len: usize = match security_descriptor_section_length(tail) {
        None => {
            return;
        },
        Some(len) => len,
    };
    let start: usize = out.len();
    wire::set_u32(out, field_offset, start as u32);
    wire::put_bytes(out, slice_subrange(descriptor, at, at + len));
    *control = *control | present_bit;
}

/// Keeps the sections of a descriptor that are asked for.
pub fn filter_security_descriptor(descriptor: &[u8], security_information: u32) -> (r: Vec<u8>)
    ensures
        r@ == filtered(descriptor@, security_information),
{
    if security_information == 0 || descriptor.len() < 20 {
        return slice_to_vec(descriptor);
    }
    let mut out: Vec<u8> = Vec::new();
    out.push(descriptor[0]);
    out.push(descriptor[1]);
    wire::put_zeros(&mut out, 18);
    assert(out@ =~= seq![descriptor@[0], descriptor@[1]] + wire::zeros(18));
    let mut control: u16 = wire::read_u16(descriptor, 2) & SE_SELF_RELATIVE;
    copy_security_descriptor_section(
        descriptor,
        &mut out,
        &mut control,
        4,
        security_information & OWNER_SECURITY_INFORMATION != 0,
        0,
    );
    copy_security_descriptor_section(
        descriptor,
        &mut out,
        &mut control,
        8,
        security_information & GROUP_SECURITY_INFORMATION != 0,
        0,
    );
    copy_security_descriptor_section(
        descriptor,
        &mut out,
        &mut control,
        12,
        security_information & SACL_SECURITY_INFORMATION != 0,
        SE_SACL_PRESENT,
    );
    copy_security_descriptor_section(
        descriptor,
        &mut out,
        &mut control,
        16,
        security_information & DACL_SECURITY_INFORMATION != 0,
        SE_DACL_PRESENT,
    );
    wire::set_u16(&mut out, 2, control);
    out
}

/// Asking for nothing gives the whole descriptor.
pub proof fn filter_without_information_is_whole(sd: Seq<u8>)
    ensures
        filtered(sd, 0) == sd,
{
}

} // verus!
