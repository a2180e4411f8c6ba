//! What access lists grant, and what is kept of a security descriptor.

use crate::info_class::security;
use crate::info_class::security::{Filtered, SecurityAce};
use crate::proto::messages::layout;
use crate::wire;
use vstd::prelude::*;

verus! {

/// Where `r` is any right: all rights stand for each right on files, reading, writing and
/// executing stand for theirs, rights on files stand for themselves, and nothing else is granted.
proof fn lemma_masks(a: u32, all: u32, read: u32, write: u32, execute: u32, x: u32, r: u32)
    by (bit_vector)
    requires
        a & 0x1000_0000 != 0 ==> all == 0x001f_01ff,
        a & 0x1000_0000 == 0 ==> all == 0,
        a & 0x8000_0000 != 0 ==> read == 0x0012_0089,
        a & 0x8000_0000 == 0 ==> read == 0,
        a & 0x4000_0000 != 0 ==> write == 0x0012_0116,
        a & 0x4000_0000 == 0 ==> write == 0,
        a & 0x2000_0000 != 0 ==> execute == 0x0012_00a0,
        a & 0x2000_0000 == 0 ==> execute == 0,
        a & 0x0200_0000 != 0 ==> x == 0x001f_01ff,
        a & 0x0200_0000 == 0 ==> x == (a & 0x001f_01ff) | all | read | write | execute,
    ensures
        a & 0x1200_0000 != 0 ==> x == 0x001f_01ff,
        a & 0x8000_0000 != 0 ==> x & 0x0012_0089 == 0x0012_0089,
        a & 0x4000_0000 != 0 ==> x & 0x0012_0116 == 0x0012_0116,
        a & 0x2000_0000 != 0 ==> x & 0x0012_00a0 == 0x0012_00a0,
        x & (a & 0x001f_01ff) == a & 0x001f_01ff,
        x & 0xffe0_fe00 == 0,
        (x & r != 0 && a & 0x1200_0000 == 0) ==> (a & r & 0x001f_01ff != 0 || (a & 0x8000_0000 != 0
            && r & 0x0012_0089 != 0) || (a & 0x4000_0000 != 0 && r & 0x0012_0116 != 0) || (a
            & 0x2000_0000 != 0 && r & 0x0012_00a0 != 0)),
{
}

proof fn lemma_bits(a: u32, b: u32, r: u32, x: u32, c: u16)
    by (bit_vector)
    ensures
        (a | b) & r != 0 ==> (a & r != 0 || b & r != 0),
        (a & r != 0 || b & r != 0) ==> (a | b) & r != 0,
        a | 0 == a,
        a == 0 ==> a & r == 0,
        x & !a == 0 && x & r != 0 ==> a & r != 0,
        x & !a == 0 && x != 0 ==> a != 0,
        x & !a == 0 ==> x & !(a | b) == 0,
        x & !b == 0 ==> x & !(a | b) == 0,
        (x & !a) & !a == x & !a,
        a & (x & !a) == 0,
        x & (x & !a) == x & !a,
        r & x == x & r,
        c & 4 != 0 ==> (c / 4) % 2 == 1,
        (c / 4) % 2 == 1 ==> c & 4 != 0,
        c & 1 != 0 ==> c % 2 == 1,
        c % 2 == 1 ==> c & 1 != 0,
        c & 2 != 0 ==> (c / 2) % 2 == 1,
        (c / 2) % 2 == 1 ==> c & 2 != 0,
{
}

/// All rights and the most rights allowed stand for each right on files; reading, writing and
/// executing stand for theirs; rights on files stand for themselves; and no other right comes of
/// a mask.
pub proof fn masks_stand_for_rights_on_files(a: u32, r: u32)
    ensures
        a & 0x1200_0000 != 0 ==> security::expanded(a) == 0x001f_01ff,
        a & 0x8000_0000 != 0 ==> security::expanded(a) & 0x0012_0089 == 0x0012_0089,
        a & 0x4000_0000 != 0 ==> security::expanded(a) & 0x0012_0116 == 0x0012_0116,
        a & 0x2000_0000 != 0 ==> security::expanded(a) & 0x0012_00a0 == 0x0012_00a0,
        security::expanded(a) & (a & 0x001f_01ff) == a & 0x001f_01ff,
        security::expanded(a) & 0xffe0_fe00 == 0,
        (security::expanded(a) & r != 0 && a & 0x1200_0000 == 0) ==> (a & r & 0x001f_01ff != 0 || (a
            & 0x8000_0000 != 0 && r & 0x0012_0089 != 0) || (a & 0x4000_0000 != 0 && r & 0x0012_0116
            != 0) || (a & 0x2000_0000 != 0 && r & 0x0012_00a0 != 0)),
{
    let own = a & 0x001f_01ff;
    let all = if a & 0x1000_0000 != 0 { 0x001f_01ffu32 } else { 0 };
    let read = if a & 0x8000_0000 != 0 { 0x0012_0089u32 } else { 0 };
    let write = if a & 0x4000_0000 != 0 { 0x0012_0116u32 } else { 0 };
    let execute = if a & 0x2000_0000 != 0 { 0x0012_00a0u32 } else { 0 };
    lemma_bits(own, 0, 0, 0, 0);
    lemma_bits(own | all, 0, 0, 0, 0);
    lemma_bits(own | all | read, 0, 0, 0, 0);
    lemma_bits(own | all | read | write, 0, 0, 0, 0);
    lemma_masks(a, all, read, write, execute, security::expanded(a), r);
}

/// The entries of one kind grant a right together exactly where one of them grants it.
pub proof fn one_entry_is_enough(aces: Seq<SecurityAce>, ace_type: u8, r: u32)
    ensures
        security::mask_of(aces, ace_type) & r != 0 <==> exists|i: int|
            0 <= i < aces.len() && (#[trigger] aces[i]).ace_type == ace_type && security::expanded(
                aces[i].mask,
            ) & r != 0,
    decreases aces.len(),
{
    if aces.len() == 0 {
        lemma_bits(0, 0, r, 0, 0);
    } else {
        let rest = aces.drop_last();
        one_entry_is_enough(rest, ace_type, r);
        lemma_bits(
            security::mask_of(rest, ace_type),
            security::expanded(aces.last().mask),
            r,
            0,
            0,
        );
        if security::mask_of(rest, ace_type) & r != 0 {
            let i = choose|i: int|
                0 <= i < rest.len() && (#[trigger] rest[i]).ace_type == ace_type
                    && security::expanded(rest[i].mask) & r != 0;
            assert(aces[i] == rest[i]);
        }
        assert forall|i: int|
            0 <= i < aces.len() && (#[trigger] aces[i]).ace_type == ace_type && security::expanded(
                aces[i].mask,
            ) & r != 0 implies security::mask_of(aces, ace_type) & r != 0 by {
            if i < rest.len() {
                assert(rest[i] == aces[i]);
            }
        }
        if aces.last().ace_type == ace_type && security::expanded(aces.last().mask) & r != 0 {
            assert(aces[aces.len() - 1].ace_type == ace_type);
        }
    }
}

proof fn lemma_covered(aces: Seq<SecurityAce>, i: int, access: u32)
    requires
        0 <= i < aces.len(),
        aces[i].ace_type == 0,
        access & !security::expanded(aces[i].mask) == 0,
    ensures
        access & !security::mask_of(aces, 0) == 0,
    decreases aces.len(),
{
    let rest = aces.drop_last();
    let m = security::mask_of(rest, 0);
    let last = security::expanded(aces.last().mask);
    lemma_bits(m, last, 0, access, 0);
    if i < rest.len() {
        assert(rest[i] == aces[i]);
        lemma_covered(rest, i, access);
    }
}

/// A descriptor has an access list where it is whole and the third bit of its control field says
/// so; the list lies where the offset at byte 16 leads and has the length at its third byte.
pub proof fn access_lists_lie_in_place(sd: Seq<u8>)
    ensures
        security::has_dacl(sd) <==> (sd.len() >= 20 && (layout::number(sd, 2, 2) / 4) % 2 == 1),
        security::dacl_of(sd) matches Some(list) ==> security::has_dacl(sd) && 20 <= layout::number(
            sd,
            16,
            4,
        ) && list.len() == layout::number(sd, layout::number(sd, 16, 4) + 2, 2) && list
            == sd.subrange(
            layout::number(sd, 16, 4),
            layout::number(sd, 16, 4) + list.len(),
        ) && list.len() >= 8,
        (security::has_dacl(sd) && ({
            let at = layout::number(sd, 16, 4);
            let len = layout::number(sd, at + 2, 2);
            20 <= at && 8 <= len && at + len <= sd.len()
        })) ==> security::dacl_of(sd) is Some,
{
    layout::numbers_are_little_endian(sd);
    let c = wire::le16(sd, 2);
    assert(wire::le16(sd, 2) == layout::number(sd, 2, 2));
    assert(wire::le32(sd, 16) == layout::number(sd, 16, 4));
    let at = wire::le32(sd, 16);
    assert(wire::le16(sd, at + 2) == layout::number(sd, at + 2, 2));
    lemma_bits(0, 0, 0, 0, c as u16);
    if let Some(list) = security::dacl_of(sd) {
        assert(list.len() == wire::le16(sd, at + 2));
    }
}

/// An entry of an access list has its type, its flags, its length and its rights, and the next
/// one lies behind it.
pub proof fn entries_follow_each_other(list: Seq<u8>, at: int, count: int)
    requires
        count > 0,
        security::aces_from(list, at, count) is Some,
    ensures
        ({
            let aces = security::aces_from(list, at, count)->0;
            let next = at + layout::number(list, at + 2, 2);
            &&& aces.len() == count
            &&& aces[0].ace_type == list[at]
            &&& aces[0].flags == list[at + 1]
            &&& aces[0].mask == layout::number(list, at + 4, 4)
            &&& at + 8 <= next <= list.len()
            &&& security::aces_from(list, next, count - 1) == Some(aces.skip(1))
        }),
    decreases count,
{
    layout::numbers_are_little_endian(list);
    assert(wire::le16(list, at + 2) == layout::number(list, at + 2, 2));
    assert(wire::le32(list, at + 4) == layout::number(list, at + 4, 4));
    let next = at + wire::le16(list, at + 2);
    let rest = security::aces_from(list, next, count - 1)->0;
    if count > 1 {
        entries_follow_each_other(list, next, count - 1);
    }
    let aces = security::aces_from(list, at, count)->0;
    assert(aces.skip(1) =~= rest);
}

/// The entries of a descriptor start behind the eight bytes that head its access list, and there
/// are as many as its fifth byte and the one behind it say.
pub proof fn entries_are_those_of_the_access_list(sd: Seq<u8>)
    requires
        security::dacl_of(sd) is Some,
    ensures
        security::aces_of(sd) == security::aces_from(
            security::dacl_of(sd)->0,
            8,
            layout::number(security::dacl_of(sd)->0, 4, 2),
        ),
{
    let list = security::dacl_of(sd)->0;
    layout::numbers_are_little_endian(list);
    assert(wire::le16(list, 4) == layout::number(list, 4, 2));
}

/// An entry that denies one of the rights denies the request, whatever else the list allows.
pub proof fn denied_rights_are_refused(sd: Seq<u8>, i: int, access: u32)
    requires
        security::aces_of(sd) is Some,
        0 <= i < security::aces_of(sd)->0.len(),
        security::aces_of(sd)->0[i].ace_type == 1,
        security::expanded(security::aces_of(sd)->0[i].mask) & access != 0,
    ensures
        security::denies(sd, access),
{
    let aces = security::aces_of(sd)->0;
    assert(aces[i].ace_type == 1);
    one_entry_is_enough(aces, 1, access);
}

/// A right that no entry allows is refused.
pub proof fn rights_nobody_allows_are_refused(sd: Seq<u8>, access: u32, r: u32)
    requires
        security::aces_of(sd) is Some,
        access & r != 0,
        forall|i: int|
            0 <= i < security::aces_of(sd)->0.len() && (#[trigger] security::aces_of(
                sd,
            )->0[i]).ace_type == 0 ==> security::expanded(security::aces_of(sd)->0[i].mask) & r
                == 0,
    ensures
        security::denies(sd, access),
{
    let aces = security::aces_of(sd)->0;
    let allowed = security::mask_of(aces, 0);
    one_entry_is_enough(aces, 0, r);
    lemma_bits(allowed, 0, r, access, 0);
    if access == 0 {
        lemma_bits(0, 0, r, 0, 0);
    }
}

/// Rights that one entry allows and no entry denies are granted.
pub proof fn allowed_rights_are_granted(sd: Seq<u8>, i: int, access: u32)
    requires
        security::aces_of(sd) is Some,
        0 <= i < security::aces_of(sd)->0.len(),
        security::aces_of(sd)->0[i].ace_type == 0,
        access & !security::expanded(security::aces_of(sd)->0[i].mask) == 0,
        forall|j: int|
            0 <= j < security::aces_of(sd)->0.len() && (#[trigger] security::aces_of(
                sd,
            )->0[j]).ace_type == 1 ==> security::expanded(security::aces_of(sd)->0[j].mask) & access
                == 0,
    ensures
        !security::denies(sd, access),
{
    let aces = security::aces_of(sd)->0;
    let list = security::dacl_of(sd)->0;
    assert(wire::le16(list, 4) != 0);
    one_entry_is_enough(aces, 1, access);
    lemma_covered(aces, i, access);
    lemma_bits(security::mask_of(aces, 0), 0, 0, access, 0);
}

/// A list without entries refuses everything; where there is no list, or it cannot be read,
/// nothing is refused.
pub proof fn empty_lists_refuse_everything(sd: Seq<u8>, access: u32)
    ensures
        security::dacl_of(sd) is Some && layout::number(security::dacl_of(sd)->0, 4, 2) == 0
            ==> security::denies(sd, access),
        security::aces_of(sd) is None ==> !security::denies(sd, access),
        !security::has_dacl(sd) ==> !security::denies(sd, access),
{
    if let Some(list) = security::dacl_of(sd) {
        layout::numbers_are_little_endian(list);
        assert(wire::le16(list, 4) == layout::number(list, 4, 2));
    }
}

/// An entry is inherited by directories by its second flag, and by files by its first.
pub proof fn flags_say_who_inherits(ace: SecurityAce, access: u32)
    ensures
        security::ace_inherited(ace, true) <==> (ace.flags / 2) % 2 == 1,
        security::ace_inherited(ace, false) <==> ace.flags % 2 == 1,
        security::ace_denies(ace, access) <==> (ace.ace_type == 1 && ace.mask & access != 0),
{
    lemma_bits(0, 0, 0, 0, ace.flags as u16);
    assert((ace.flags as u16) & 2 == (ace.flags & 2) as u16);
    assert((ace.flags as u16) & 1 == (ace.flags & 1) as u16);
}

/// The descriptor of the server's own lets everyone do everything on files.
pub proof fn everyone_may_do_everything(access: u32)
    requires
        access & !0x001f_01ffu32 == 0,
    ensures
        !security::denies(security::minimal_descriptor(), access),
        security::section_of(security::minimal_descriptor(), 4) == Some(security::everyone()),
        security::aces_of(security::minimal_descriptor()) == Some(
            seq![SecurityAce { ace_type: 0, flags: 0, mask: 0x001f_01ff }],
        ),
{
    let sd = security::minimal_descriptor();
    let e = security::everyone();
    assert(sd.len() == 60);
    assert(sd.subrange(2, 4) =~= wire::bytes16(0x8004));
    wire::le16_of_bytes16(sd, 2, 0x8004);
    assert(sd.subrange(4, 8) =~= wire::bytes32(20));
    wire::le32_of_bytes32(sd, 4, 20);
    assert(sd.subrange(16, 20) =~= wire::bytes32(32));
    wire::le32_of_bytes32(sd, 16, 32);
    assert(sd.subrange(34, 36) =~= wire::bytes16(28));
    wire::le16_of_bytes16(sd, 34, 28);
    access_lists_lie_in_place(sd);
    layout::numbers_are_little_endian(sd);
    assert(wire::le16(sd, 2) == layout::number(sd, 2, 2));
    assert((0x8004int / 4) % 2 == 1);
    let list = sd.subrange(32, 60);
    assert(security::dacl_of(sd) == Some(list));
    assert(list.subrange(4, 6) =~= wire::bytes16(1));
    wire::le16_of_bytes16(list, 4, 1);
    assert(list.subrange(10, 12) =~= wire::bytes16(20));
    wire::le16_of_bytes16(list, 10, 20);
    assert(list.subrange(12, 16) =~= wire::bytes32(0x001f_01ff));
    wire::le32_of_bytes32(list, 12, 0x001f_01ff);
    reveal_with_fuel(security::aces_from, 2);
    let ace = SecurityAce { ace_type: 0, flags: 0, mask: 0x001f_01ff };
    assert(list[8] == 0 && list[9] == 0);
    assert(security::aces_of(sd)->0 =~= seq![ace]);
    let tail = sd.skip(20);
    assert(tail[0] == 1 && tail[1] == 1);
    assert(sd.subrange(20, 32) =~= e);
    assert(security::aces_of(sd)->0[0] == ace);
    masks_stand_for_rights_on_files(0x001f_01ff, 0);
    lemma_all_rights(0x001f_01ff);
    allowed_rights_are_granted(sd, 0, access);
}

proof fn lemma_all_rights(m: u32)
    by (bit_vector)
    requires
        m == 0x001f_01ff,
    ensures
        m & 0x0200_0000 == 0,
        m & 0x1000_0000 == 0,
        m & 0x8000_0000 == 0,
        m & 0x4000_0000 == 0,
        m & 0x2000_0000 == 0,
        m & 0x001f_01ff == 0x001f_01ff,
{
}

/// A descriptor with a nil access list has one that cannot be read, and refuses nothing.
pub proof fn nil_lists_refuse_nothing(access: u32)
    ensures
        security::has_dacl(security::nil_dacl_descriptor()),
        security::dacl_of(security::nil_dacl_descriptor()) is None,
        !security::denies(security::nil_dacl_descriptor(), access),
{
    let sd = security::nil_dacl_descriptor();
    assert(sd.subrange(2, 4) =~= wire::bytes16(0x8004));
    wire::le16_of_bytes16(sd, 2, 0x8004);
    access_lists_lie_in_place(sd);
    layout::numbers_are_little_endian(sd);
    assert(wire::le16(sd, 2) == layout::number(sd, 2, 2));
    assert((0x8004int / 4) % 2 == 1);
    assert(sd[16] == 0 && sd[17] == 0 && sd[18] == 0 && sd[19] == 0);
    assert(wire::le32(sd, 16) == 0);
}

/// What `with_section` leaves of the bytes before it, and where it puts its section.
proof fn lemma_section(
    sd: Seq<u8>,
    f: Filtered,
    field: int,
    requested: bool,
    present_bit: u16,
) -> (g: Filtered)
    requires
        sd.len() >= 20,
        20 <= f.out.len() <= 0x10_0000,
        0 <= field <= 16,
    ensures
        g == security::with_section(sd, f, field, requested, present_bit),
        f.out.len() <= g.out.len() <= f.out.len() + 0x1_0000,
        forall|i: int|
            0 <= i < f.out.len() && !(field <= i < field + 4) ==> #[trigger] g.out[i] == f.out[i],
        requested && security::section_of(sd, field) is Some ==> ({
            let bytes = security::section_of(sd, field)->0;
            &&& wire::le32(g.out, field) == f.out.len()
            &&& g.out.len() == f.out.len() + bytes.len()
            &&& g.out.subrange(f.out.len() as int, g.out.len() as int) == bytes
        }),
        !(requested && security::section_of(sd, field) is Some) ==> g.out == f.out,
{
    let g = security::with_section(sd, f, field, requested, present_bit);
    if requested && security::section_of(sd, field) is Some {
        let bytes = security::section_of(sd, field)->0;
        assert(bytes.len() <= 0x1_0000);
        assert(g.out.subrange(field, field + 4) =~= wire::bytes32(f.out.len() as u32));
        wire::le32_of_bytes32(g.out, field, f.out.len() as u32);
        assert(g.out.subrange(f.out.len() as int, g.out.len() as int) =~= bytes);
    }
    g
}

/// A section that lies whole in a descriptor is found where the offset leads.
proof fn lemma_found(sd: Seq<u8>, from: int, out: Seq<u8>, field: int, at: int)
    requires
        security::section_of(sd, from) is Some,
        20 <= at,
        at + security::section_of(sd, from)->0.len() <= out.len(),
        wire::le32(out, field) == at,
        out.subrange(at, at + security::section_of(sd, from)->0.len()) == security::section_of(
            sd,
            from,
        )->0,
    ensures
        security::section_of(out, field) == security::section_of(sd, from),
{
    let bytes = security::section_of(sd, from)->0;
    let a = wire::le32(sd, from);
    let old_tail = sd.skip(a);
    let tail = out.skip(at);
    assert(bytes.len() >= 8);
    assert forall|i: int| 0 <= i < bytes.len() implies tail[i] == old_tail[i] by {
        assert(bytes[i] == out.subrange(at, at + bytes.len())[i]);
        assert(bytes[i] == sd.subrange(a, a + bytes.len())[i]);
    }
    assert(tail[0] == old_tail[0] && tail[1] == old_tail[1] && tail[2] == old_tail[2] && tail[3]
        == old_tail[3]);
    assert(security::section_len(tail) == security::section_len(old_tail));
}

/// What a step kept of a section is still there behind the steps that follow.
proof fn lemma_kept(
    sd: Seq<u8>,
    before: Filtered,
    after: Filtered,
    out: Seq<u8>,
    field: int,
    asked: bool,
)
    requires
        0 <= field <= 16,
        20 <= before.out.len() <= after.out.len() <= out.len(),
        forall|i: int| field <= i < field + 4 ==> #[trigger] before.out[i] == 0,
        asked && security::section_of(sd, field) is Some ==> ({
            let bytes = security::section_of(sd, field)->0;
            &&& wire::le32(after.out, field) == before.out.len()
            &&& after.out.len() == before.out.len() + bytes.len()
            &&& after.out.subrange(before.out.len() as int, after.out.len() as int) == bytes
        }),
        !(asked && security::section_of(sd, field) is Some) ==> after.out == before.out,
        forall|i: int|
            (field <= i < field + 4 || 20 <= i < after.out.len()) ==> #[trigger] out[i]
                == after.out[i],
    ensures
        asked && security::section_of(sd, field) is Some ==> security::section_of(out, field)
            == security::section_of(sd, field),
        !(asked && security::section_of(sd, field) is Some) ==> layout::number(out, field, 4) == 0,
{
    let at = before.out.len() as int;
    assert(wire::le32(out, field) == wire::le32(after.out, field));
    layout::numbers_are_little_endian(out);
    assert(wire::le32(out, field) == layout::number(out, field, 4));
    if asked && security::section_of(sd, field) is Some {
        let bytes = security::section_of(sd, field)->0;
        assert(out.subrange(at, at + bytes.len()) =~= after.out.subrange(at, at + bytes.len()));
        lemma_found(sd, field, out, field, at);
    }
}

/// What is asked for of owner, group, system list and access list is kept as it was; what is not
/// asked for, or is not there, is left out. The first two bytes stay.
#[verifier::rlimit(60)]
#[verifier::spinoff_prover]
pub proof fn sections_asked_for_are_kept(sd: Seq<u8>, information: u32, field: int)
    requires
        information != 0,
        sd.len() >= 20,
        field == 4 || field == 8 || field == 12 || field == 16,
    ensures
        ({
            let out = security::filtered(sd, information);
            let asked = if field == 4 {
                information & 1 != 0
            } else if field == 8 {
                information & 2 != 0
            } else if field == 12 {
                information & 8 != 0
            } else {
                information & 4 != 0
            };
            &&& out[0] == sd[0] && out[1] == sd[1]
            &&& asked && security::section_of(sd, field) is Some ==> security::section_of(
                out,
                field,
            ) == security::section_of(sd, field)
            &&& !(asked && security::section_of(sd, field) is Some) ==> layout::number(
                out,
                field,
                4,
            ) == 0
        }),
{
    let start = Filtered {
        out: seq![sd[0], sd[1]] + wire::zeros(18),
        control: (wire::le16(sd, 2) as u16) & 0x8000,
    };
    let owner = lemma_section(sd, start, 4, information & 1 != 0, 0);
    let group = lemma_section(sd, owner, 8, information & 2 != 0, 0);
    let sacl = lemma_section(sd, group, 12, information & 8 != 0, 0x0010);
    let dacl = lemma_section(sd, sacl, 16, information & 4 != 0, 0x0004);
    let out = security::filtered(sd, information);
    assert(out == wire::overwritten(dacl.out, 2, wire::bytes16(dacl.control)));
    assert forall|i: int| 4 <= i < out.len() implies #[trigger] out[i] == dacl.out[i] by {}
    assert(out[0] == start.out[0] && out[1] == start.out[1]);
    if field == 4 {
        lemma_kept(sd, start, owner, out, 4, information & 1 != 0);
    } else if field == 8 {
        lemma_kept(sd, owner, group, out, 8, information & 2 != 0);
    } else if field == 12 {
        lemma_kept(sd, group, sacl, out, 12, information & 8 != 0);
    } else {
        lemma_kept(sd, sacl, dacl, out, 16, information & 4 != 0);
    }
}

proof fn lemma_control(c: u16, s: u16, d: u16)
    by (bit_vector)
    requires
        s == 0 || s == 0x10,
        d == 0 || d == 4,
    ensures
        ((c & 0x8000) | s | d) / 0x8000 == c / 0x8000,
        s == 0 && d == 0 ==> ((c & 0x8000) | s | d) % 0x8000 == 0,
        s == 0x10 && d == 0 ==> ((c & 0x8000) | s | d) % 0x8000 == 0x10,
        s == 0 && d == 4 ==> ((c & 0x8000) | s | d) % 0x8000 == 4,
        s == 0x10 && d == 4 ==> ((c & 0x8000) | s | d) % 0x8000 == 0x14,
        (c & 0x8000) | 0 == c & 0x8000,
        (c & 0x8000) | 0 | 0 == c & 0x8000,
        s | 0 == s,
        s | s == s,
        (c & 0x8000) | s | 0 == (c & 0x8000) | s,
        (c & 0x8000) | s | s == (c & 0x8000) | s,
        (c & 0x8000) | s | d | d == (c & 0x8000) | s | d,
        c & 0x10 != 0 ==> (c / 0x10) % 2 == 1,
        (c / 0x10) % 2 == 1 ==> c & 0x10 != 0,
        c & 4 != 0 ==> (c / 4) % 2 == 1,
        (c / 4) % 2 == 1 ==> c & 4 != 0,
{
}

/// The control field of what is kept has the sign of a self-relative descriptor where the
/// descriptor has it, and names a list where one is asked for that the descriptor names or has.
#[verifier::rlimit(60)]
#[verifier::spinoff_prover]
pub proof fn lists_asked_for_are_named(sd: Seq<u8>, information: u32)
    requires
        information != 0,
        sd.len() >= 20,
    ensures
        ({
            let c = layout::number(sd, 2, 2);
            let k = layout::number(security::filtered(sd, information), 2, 2);
            let sacl = information & 8 != 0 && ((c / 0x10) % 2 == 1 || security::section_of(
                sd,
                12,
            ) is Some);
            let dacl = information & 4 != 0 && ((c / 4) % 2 == 1 || security::section_of(
                sd,
                16,
            ) is Some);
            &&& k / 0x8000 == c / 0x8000
            &&& k % 0x8000 == (if sacl { 0x10int } else { 0 }) + (if dacl { 4int } else { 0 })
        }),
{
    layout::numbers_are_little_endian(sd);
    assert(wire::le16(sd, 2) == layout::number(sd, 2, 2));
    let c = wire::le16(sd, 2) as u16;
    let start = Filtered { out: seq![sd[0], sd[1]] + wire::zeros(18), control: c & 0x8000 };
    let owner = lemma_section(sd, start, 4, information & 1 != 0, 0);
    let group = lemma_section(sd, owner, 8, information & 2 != 0, 0);
    let sacl = lemma_section(sd, group, 12, information & 8 != 0, 0x0010);
    let dacl = lemma_section(sd, sacl, 16, information & 4 != 0, 0x0004);
    lemma_control(c, 0, 0);
    lemma_control(c, 0x10, 0);
    lemma_control(c, 0, 4);
    lemma_control(c, 0x10, 4);
    assert(group.control == c & 0x8000);
    let named = information & 8 != 0 && ((c / 0x10) % 2 == 1 || security::section_of(
        sd,
        12,
    ) is Some);
    assert(sacl.control == (c & 0x8000) | (if named { 0x10u16 } else { 0u16 }));
    let out = security::filtered(sd, information);
    assert(out.subrange(2, 4) =~= wire::bytes16(dacl.control));
    wire::le16_of_bytes16(out, 2, dacl.control);
    layout::numbers_are_little_endian(out);
    assert(wire::le16(out, 2) == layout::number(out, 2, 2));
}

} // verus!
