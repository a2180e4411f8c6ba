//! Extended attributes: a chain of records, each aligned to four bytes.

use crate::text::decode_utf8_text;
use crate::wire;
use vstd::prelude::*;
use vstd::slice::slice_subrange;

verus! {

/// An extended attribute.
#[derive(Debug, Clone, PartialEq, Eq)]
pub struct ExtendedAttribute {
    pub flags: u8,
    pub name: String,
    pub value: Vec<u8>,
}

/// What an extended attribute holds.
#[verifier::ext_equal]
pub struct EaModel {
    pub flags: u8,
    pub name: Seq<char>,
    pub value: Seq<u8>,
}

impl View for ExtendedAttribute {
    type V = EaModel;

    open spec fn view(&self) -> EaModel {
        EaModel { flags: self.flags, name: self.name@, value: self.value@ }
    }
}

/// What the attributes of a list hold.
pub open spec fn models(list: Seq<ExtendedAttribute>) -> Seq<EaModel> {
    list.map_values(|e: ExtendedAttribute| e@)
}

impl ExtendedAttribute {
    /// Makes a copy.
    pub fn duplicate(&self) -> (r: Self)
        ensures
            r@ == self@,
    {
        let r = Self {
            flags: self.flags,
            name: self.name.clone(),
            value: vstd::slice::slice_to_vec(self.value.as_slice()),
        };
        assert(r@ =~= self@);
        r
    }
}

// ---------------------------------------------------------------------------
// Encoding
// ---------------------------------------------------------------------------

/// The bytes of the name of an attribute.
pub open spec fn name_bytes(e: EaModel) -> Seq<u8> {
    vstd::utf8::encode_utf8(e.name)
}

/// The number of bytes of a record without its padding.
pub open spec fn record_len(e: EaModel) -> int {
    9int + name_bytes(e).len() + e.value.len()
}

/// The number of bytes of a record with its padding.
pub open spec fn padded_len(e: EaModel) -> int {
    (record_len(e) + 3) / 4 * 4
}

/// A record; `next` is the distance to the record behind it, zero for the last.
#[verifier::opaque]
pub open spec fn record_bytes(e: EaModel, next: u32) -> Seq<u8> {
    wire::bytes32(next) + (seq![e.flags, name_bytes(e).len() as u8] + wire::bytes16(
        e.value.len() as u16,
    ) + name_bytes(e) + seq![0u8] + e.value + wire::zeros(padded_len(e) - record_len(e)))
}

/// The records of a chain from attribute `i` on.
pub open spec fn records(list: Seq<EaModel>, i: int) -> Seq<u8>
    decreases list.len() - i,
{
    if i < 0 || i >= list.len() {
        Seq::empty()
    } else {
        record_bytes(
            list[i],
            if i + 1 < list.len() {
                padded_len(list[i]) as u32
            } else {
                0
            },
        ) + records(list, i + 1)
    }
}

/// A chain of attributes; four zero bytes where there is none.
pub open spec fn full_ea(list: Seq<EaModel>) -> Seq<u8> {
    if list.len() == 0 {
        wire::zeros(4)
    } else {
        records(list, 0)
    }
}

proof fn lemma_record_len(e: EaModel, next: u32)
    ensures
        record_bytes(e, next).len() == padded_len(e),
{
    reveal(record_bytes);
}

proof fn lemma_record_next(e: EaModel, next: u32)
    ensures
        wire::overwritten(record_bytes(e, 0), 0, wire::bytes32(next)) == record_bytes(e, next),
{
    reveal(record_bytes);
    assert(wire::overwritten(record_bytes(e, 0), 0, wire::bytes32(next)) =~= record_bytes(e, next));
}

proof fn lemma_record_parts(e: EaModel, next: u32)
    ensures
        record_bytes(e, next) == wire::bytes32(next) + seq![e.flags, name_bytes(e).len() as u8] + (
        wire::bytes16(e.value.len() as u16) + name_bytes(e) + seq![0u8] + e.value) + wire::zeros(
            padded_len(e) - record_len(e),
        ),
{
    reveal(record_bytes);
    assert(record_bytes(e, next) =~= wire::bytes32(next) + seq![
        e.flags,
        name_bytes(e).len() as u8,
    ] + (wire::bytes16(e.value.len() as u16) + name_bytes(e) + seq![0u8] + e.value) + wire::zeros(
        padded_len(e) - record_len(e),
    ));
}

fn encode_record(e: &ExtendedAttribute, last: bool) -> (r: Vec<u8>)
    ensures
        r@ == record_bytes(
            e@,
            if last {
                0
            } else {
                padded_len(e@) as u32
            },
        ),
{
    let name: &[u8] = e.name.as_str().as_bytes();
    assert(name@ == name_bytes(e@));
    let mut rec: Vec<u8> = Vec::new();
    wire::put_u32(&mut rec, 0);
    rec.push(e.flags);
    rec.push(name.len() as u8);
    let ghost head = seq![e.flags, name_bytes(e@).len() as u8];
    assert(rec@ =~= wire::bytes32(0) + head);
    wire::put_u16(&mut rec, e.value.len() as u16);
    wire::put_bytes(&mut rec, name);
    rec.push(0);
    wire::put_bytes(&mut rec, e.value.as_slice());
    let ghost middle = wire::bytes16(e.value@.len() as u16) + name_bytes(e@) + seq![0u8] + e.value@;
    assert(rec@ =~= wire::bytes32(0) + head + middle);
    let len: usize = rec.len();
    assert(len == record_len(e@));
    wire::put_zeros(&mut rec, (4 - len % 4) % 4);
    let padded: usize = rec.len();
    assert(padded == padded_len(e@));
    proof {
        lemma_record_parts(e@, 0);
        lemma_record_next(e@, padded as u32);
    }
    if !last {
        wire::set_u32(&mut rec, 0, padded as u32);
    }
    rec
}

/// The records of the first `n` attributes.
spec fn records_upto(list: Seq<EaModel>, n: int) -> Seq<u8>
    decreases n,
{
    if n <= 0 {
        Seq::empty()
    } else {
        records_upto(list, n - 1) + record_bytes(
            list[n - 1],
            if n < list.len() {
                padded_len(list[n - 1]) as u32
            } else {
                0
            },
        )
    }
}

proof fn lemma_records_split(list: Seq<EaModel>, n: int)
    requires
        0 <= n <= list.len(),
    ensures
        records(list, 0) == records_upto(list, n) + records(list, n),
    decreases n,
{
    if n > 0 {
        lemma_records_split(list, n - 1);
        assert(records_upto(list, n) + records(list, n) =~= records_upto(list, n - 1) + records(
            list,
            n - 1,
        ));
    } else {
        assert(records_upto(list, 0) + records(list, 0) =~= records(list, 0));
    }
}

/// Encodes attributes.
pub fn encode_file_full_ea_information(eas: &[ExtendedAttribute]) -> (r: Vec<u8>)
    ensures
        r@ == full_ea(models(eas@)),
{
    let mut out: Vec<u8> = Vec::new();
    if eas.len() == 0 {
        wire::put_zeros(&mut out, 4);
        assert(out@ =~= wire::zeros(4));
        return out;
    }
    let ghost list = models(eas@);
    let mut i: usize = 0;
    while i < eas.len()
        invariant
            i <= eas@.len(),
            list == models(eas@),
            out@ == records_upto(list, i as int),
        decreases eas@.len() - i,
    {
        let rec: Vec<u8> = encode_record(&eas[i], i == eas.len() - 1);
        assert(list[i as int] == eas@[i as int]@);
        wire::put_bytes(&mut out, rec.as_slice());
        i += 1;
    }
    proof {
        lemma_records_split(list, i as int);
        assert(out@ =~= records(list, 0));
    }
    out
}

/// The number of bytes of encoded attributes, none where there is no attribute.
pub fn full_ea_information_size(eas: &[ExtendedAttribute]) -> (r: u32)
    ensures
        r == if eas@.len() == 0 {
            0
        } else {
            full_ea(models(eas@)).len() as u32
        },
{
    if eas.len() == 0 {
        0
    } else {
        encode_file_full_ea_information(eas).len() as u32
    }
}

/// Encodes the number of bytes of attributes.
pub fn encode_file_ea_information(eas: &[ExtendedAttribute]) -> (r: Vec<u8>)
    ensures
        r@ == wire::bytes32(
            if eas@.len() == 0 {
                0
            } else {
                full_ea(models(eas@)).len() as u32
            },
        ),
{
    let mut out: Vec<u8> = Vec::new();
    wire::put_u32(&mut out, full_ea_information_size(eas));
    assert(out@ =~= wire::bytes32(
        if eas@.len() == 0 {
            0
        } else {
            full_ea(models(eas@)).len() as u32
        },
    ));
    out
}

// ---------------------------------------------------------------------------
// Decoding
// ---------------------------------------------------------------------------

/// Where the record at `at` ends, padding not counted.
pub open spec fn record_end(data: Seq<u8>, at: int) -> int {
    at + 9 + data[at + 5] + wire::le16(data, at + 6)
}

/// The name of the record at `at`.
pub open spec fn record_name(data: Seq<u8>, at: int) -> Seq<u8> {
    data.subrange(at + 8, at + 8 + data[at + 5])
}

/// Whether a record at `at` is whole: a name of UTF-8 with a zero behind it, and a value.
pub open spec fn record_whole(data: Seq<u8>, at: int) -> bool {
    &&& at + 8 <= data.len()
    &&& data[at + 5] != 0
    &&& record_end(data, at) <= data.len()
    &&& data[at + 8 + data[at + 5]] == 0
    &&& vstd::utf8::valid_utf8(record_name(data, at))
}

/// Whether the record at `at` says that another record follows in the data.
pub open spec fn has_next(data: Seq<u8>, at: int) -> bool {
    wire::le32(data, at) != 0
}

/// Whether the distance to the next record leads past the record, to a multiple of four
/// and into the data.
pub open spec fn next_fits(data: Seq<u8>, at: int) -> bool {
    let next = wire::le32(data, at);
    at + next >= record_end(data, at) && next % 4 == 0 && at + next < data.len()
}

/// Whether the chain from `at` on is whole.
pub open spec fn chain_whole(data: Seq<u8>, at: int) -> bool
    decreases data.len() - at,
{
    0 <= at && record_whole(data, at) && (has_next(data, at) ==> next_fits(data, at) && chain_whole(
        data,
        at + wire::le32(data, at),
    ))
}

/// The attribute of the record at `at`.
pub open spec fn record_model(data: Seq<u8>, at: int) -> EaModel {
    EaModel {
        flags: data[at + 4],
        name: vstd::utf8::decode_utf8(record_name(data, at)),
        value: data.subrange(at + 9 + data[at + 5], record_end(data, at)),
    }
}

/// The attributes of the chain from `at` on.
pub open spec fn chain_attributes(data: Seq<u8>, at: int) -> Seq<EaModel>
    decreases data.len() - at,
{
    if 0 <= at && at + 8 <= data.len() && has_next(data, at) && next_fits(data, at) && record_end(
        data,
        at,
    ) > at {
        seq![record_model(data, at)] + chain_attributes(data, at + wire::le32(data, at))
    } else {
        seq![record_model(data, at)]
    }
}

/// Whether all bytes are zero.
pub open spec fn all_zero(data: Seq<u8>) -> bool {
    forall|i: int| 0 <= i < data.len() ==> data[i] == 0
}

/// Whether bytes are attributes.
pub open spec fn full_ea_whole(data: Seq<u8>) -> bool {
    all_zero(data) || chain_whole(data, 0)
}

/// The attributes of bytes; none where all bytes are zero.
pub open spec fn full_ea_attributes(data: Seq<u8>) -> Seq<EaModel> {
    if all_zero(data) {
        Seq::empty()
    } else {
        chain_attributes(data, 0)
    }
}

fn is_all_zero(data: &[u8]) -> (r: bool)
    ensures
        r == all_zero(data@),
{
    let mut i: usize = 0;
    while i < data.len()
        invariant
            i <= data@.len(),
            forall|j: int| 0 <= j < i ==> data@[j] == 0,
        decreases data@.len() - i,
    {
        if data[i] != 0 {
            return false;
        }
        i += 1;
    }
    true
}

/// Decodes attributes.
pub fn decode_file_full_ea_information(data: &[u8]) -> (r: Result<Vec<ExtendedAttribute>, ()>)
    ensures
        match r {
            Ok(list) => full_ea_whole(data@) && models(list@) == full_ea_attributes(data@),
            Err(_) => !full_ea_whole(data@),
        },
{
    let mut out: Vec<ExtendedAttribute> = Vec::new();
    if is_all_zero(data) {
        assert(models(out@) =~= full_ea_attributes(data@));
        return Ok(out);
    }
    let n: usize = data.len();
    let mut at: usize = 0;
    assert(models(out@) + chain_attributes(data@, 0) =~= chain_attributes(data@, 0));
    loop
        invariant
            n == data@.len(),
            at <= n,
            !all_zero(data@),
            chain_whole(data@, 0) == chain_whole(data@, at as int),
            models(out@) + chain_attributes(data@, at as int) == chain_attributes(data@, 0),
        decreases n - at,
    {
        if n - at < 8 {
            return Err(());
        }
        let next: u32 = wire::read_u32(data, at);
        let flags: u8 = data[at + 4];
        let name_len: usize = data[at + 5] as usize;
        let value_len: usize = wire::read_u16(data, at + 6) as usize;
        let size: usize = 9 + name_len + value_len;
        if name_len == 0 || n - at < size || data[at + 8 + name_len] != 0 {
            return Err(());
        }
        let name: String = match decode_utf8_text(slice_subrange(data, at + 8, at + 8 + name_len)) {
            Some(name) => name,
            None => {
                return Err(());
            },
        };
        let ghost before = out@;
        let value: Vec<u8> = wire::copy_range(data, at + 9 + name_len, at + size);
        let ea = ExtendedAttribute { flags, name, value };
        assert(ea@ =~= record_model(data@, at as int));
        out.push(ea);
        assert(models(out@) =~= models(before).push(record_model(data@, at as int)));
        if next == 0 {
            assert(models(out@) =~= models(before) + chain_attributes(data@, at as int));
            return Ok(out);
        }
        if (next as u64) < size as u64 || next % 4 != 0 {
            return Err(());
        }
        if next as u64 >= (n - at) as u64 {
            return Err(());
        }
        assert(models(out@) + chain_attributes(data@, at + next) =~= models(before)
            + chain_attributes(data@, at as int));
        at += next as usize;
    }
}

// ---------------------------------------------------------------------------
// Round trip
// ---------------------------------------------------------------------------

/// Whether an attribute can be written: its name takes 1 to 255 bytes and its value at
/// most 65535.
pub open spec fn writable(e: EaModel) -> bool {
    1 <= name_bytes(e).len() <= 255 && e.value.len() <= 0xffff
}

proof fn lemma_record_fields(data: Seq<u8>, at: int, e: EaModel, next: u32)
    requires
        writable(e),
        0 <= at,
        at + padded_len(e) <= data.len(),
        data.subrange(at, at + padded_len(e)) == record_bytes(e, next),
    ensures
        wire::le32(data, at) == next,
        record_end(data, at) == at + record_len(e),
        record_whole(data, at),
        record_model(data, at) == e,
{
    reveal(record_bytes);
    let rec = record_bytes(e, next);
    let name = name_bytes(e);
    let sub = data.subrange(at, at + padded_len(e));
    assert(forall|j: int| 0 <= j < rec.len() ==> #[trigger] sub[j] == data[at + j]);
    assert(rec.subrange(0, 4) =~= wire::bytes32(next));
    assert(data.subrange(at, at + 4) =~= rec.subrange(0, 4));
    wire::le32_of_bytes32(data, at, next);
    assert(rec[4] == e.flags && rec[5] == name.len());
    assert(sub[4] == rec[4] && sub[5] == rec[5]);
    assert(rec.subrange(6, 8) =~= wire::bytes16(e.value.len() as u16));
    assert(data.subrange(at + 6, at + 8) =~= rec.subrange(6, 8));
    wire::le16_of_bytes16(data, at + 6, e.value.len() as u16);
    let nl = name.len() as int;
    assert(rec.subrange(8, 8 + nl) =~= name);
    assert(record_name(data, at) =~= rec.subrange(8, 8 + nl));
    assert(rec[8 + nl] == 0);
    assert(sub[8 + nl] == rec[8 + nl]);
    assert(rec.subrange(9 + nl, 9 + nl + e.value.len()) =~= e.value);
    assert(data.subrange(at + 9 + nl, record_end(data, at)) =~= rec.subrange(
        9 + nl,
        9 + nl + e.value.len(),
    ));
    vstd::utf8::encode_utf8_valid_utf8(e.name);
    vstd::utf8::encode_utf8_decode_utf8(e.name);
    assert(record_model(data, at) =~= e);
}

proof fn lemma_chain(data: Seq<u8>, at: int, list: Seq<EaModel>, i: int)
    requires
        forall|k: int| 0 <= k < list.len() ==> writable(#[trigger] list[k]),
        0 <= i < list.len(),
        0 <= at <= data.len(),
        data.skip(at) == records(list, i),
    ensures
        chain_whole(data, at),
        chain_attributes(data, at) == list.skip(i),
    decreases list.len() - i,
{
    let e = list[i];
    let next = if i + 1 < list.len() {
        padded_len(e) as u32
    } else {
        0
    };
    lemma_record_len(e, next);
    let rec = record_bytes(e, next);
    assert(data.skip(at).len() == data.len() - at);
    assert(records(list, i) == rec + records(list, i + 1));
    assert(data.skip(at).subrange(0, padded_len(e)) =~= rec);
    assert(data.subrange(at, at + padded_len(e)) =~= rec);
    lemma_record_fields(data, at, e, next);
    if i + 1 < list.len() {
        assert(data.skip(at + padded_len(e)) =~= data.skip(at).skip(padded_len(e)));
        assert((rec + records(list, i + 1)).skip(padded_len(e)) =~= records(list, i + 1));
        let after = if i + 2 < list.len() {
            padded_len(list[i + 1]) as u32
        } else {
            0
        };
        lemma_record_len(list[i + 1], after);
        assert(records(list, i + 1).len() >= 8);
        lemma_chain(data, at + padded_len(e), list, i + 1);
        assert(seq![e] + list.skip(i + 1) =~= list.skip(i));
    } else {
        assert(seq![e] =~= list.skip(i));
    }
}

/// Attributes that are written are read back as they were.
pub proof fn full_ea_round_trips(list: Seq<EaModel>)
    requires
        forall|k: int| 0 <= k < list.len() ==> writable(#[trigger] list[k]),
    ensures
        full_ea_whole(full_ea(list)),
        full_ea_attributes(full_ea(list)) == list,
{
    let data = full_ea(list);
    if list.len() == 0 {
        assert(all_zero(data));
        assert(list =~= Seq::empty());
    } else {
        assert(data.skip(0) =~= data);
        lemma_chain(data, 0, list, 0);
        assert(data[5] != 0);
        assert(list.skip(0) =~= list);
    }
}

} // verus!
