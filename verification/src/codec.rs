//! Mathematical model of the two on-disk layouts.
//!
//! A V1 index is a run of 32-byte records (`offset:u32`, `length:u32`,
//! `name:[u8;24]`, all little-endian, offsets and lengths in sectors).  A V2
//! image starts with the magic `VER2`, a little-endian `u32` entry count and
//! that many 32-byte records (`offset:u32`, `length:u16`, `reserved:u16`,
//! `name:[u8;24]`), followed by the sector-aligned payload data.
//!
//! The round-trip laws at the end relate the encoding of an entry list to
//! what the parsers recover from those bytes.

use vstd::prelude::*;

use vstd::bytes::lemma_auto_spec_u16_to_from_le_bytes;
use vstd::bytes::lemma_auto_spec_u32_to_from_le_bytes;
use vstd::bytes::spec_u16_from_le_bytes;
use vstd::bytes::spec_u16_to_le_bytes;
use vstd::bytes::spec_u32_from_le_bytes;
use vstd::bytes::spec_u32_to_le_bytes;

use crate::name::decoded_name;
use crate::name::lemma_name_encode_len;
use crate::name::name_encode;
use crate::name::stored_name;
use crate::name::wf_name;

verus! {

/// The value of one archive entry: a name and an offset and length counted
/// in whole sectors.
pub ghost struct EntryV {
    pub name: Seq<char>,
    pub off: u64,
    pub len: u64,
}

/// The magic bytes that begin a combined (V2) archive: `VER2`.
pub open spec fn v2_magic() -> Seq<u8> {
    seq![0x56u8, 0x45u8, 0x52u8, 0x32u8]
}

// ----- encoding -----
/// The 32-byte V1 index record for `e`.
pub open spec fn v1_rec_bytes(e: EntryV) -> Seq<u8> {
    spec_u32_to_le_bytes(e.off as u32) + spec_u32_to_le_bytes(e.len as u32) + name_encode(e.name)
}

/// The V1 index stream for the entry list `es`: its records, in order.
pub open spec fn v1_index_bytes(es: Seq<EntryV>) -> Seq<u8>
    decreases es.len(),
{
    if es.len() == 0 {
        Seq::empty()
    } else {
        v1_index_bytes(es.drop_last()) + v1_rec_bytes(es.last())
    }
}

/// The 32-byte V2 table record for `e`: as V1, but with a 16-bit length and
/// a zero 16-bit reserved field.
pub open spec fn v2_rec_bytes(e: EntryV) -> Seq<u8> {
    spec_u32_to_le_bytes(e.off as u32) + spec_u16_to_le_bytes(e.len as u16) + seq![0u8, 0u8]
        + name_encode(e.name)
}

// ----- parsing -----
/// A V1 index stream parses iff it ends exactly at a record boundary.
pub open spec fn v1_ok(dir: Seq<u8>) -> bool {
    dir.len() % 32 == 0
}

/// The entry stored in the `i`-th 32-byte record of a V1 index stream.
pub open spec fn v1_entry_at(dir: Seq<u8>, i: int) -> EntryV {
    EntryV {
        off: spec_u32_from_le_bytes(dir.subrange(32 * i, 32 * i + 4)) as u64,
        len: spec_u32_from_le_bytes(dir.subrange(32 * i + 4, 32 * i + 8)) as u64,
        name: decoded_name(dir.subrange(32 * i + 8, 32 * i + 32)),
    }
}

/// All entries of a V1 index stream, in record order.
pub open spec fn v1_entries(dir: Seq<u8>) -> Seq<EntryV> {
    Seq::new((dir.len() / 32) as nat, |i: int| v1_entry_at(dir, i))
}

/// Whether a V2 image begins with the magic bytes.
pub open spec fn v2_has_magic(img: Seq<u8>) -> bool {
    img.len() >= 4 && img.subrange(0, 4) == v2_magic()
}

/// The declared entry count of a V2 image.
pub open spec fn v2_count(img: Seq<u8>) -> int {
    spec_u32_from_le_bytes(img.subrange(4, 8)) as int
}

/// A V2 image parses iff the magic matches and the header and the whole
/// declared table lie within the image.
pub open spec fn v2_ok(img: Seq<u8>) -> bool {
    img.len() >= 8 && v2_has_magic(img) && 8 + 32 * v2_count(img) <= img.len()
}

/// The entry stored in the `i`-th 32-byte table record of a V2 image.
pub open spec fn v2_entry_at(img: Seq<u8>, i: int) -> EntryV {
    EntryV {
        off: spec_u32_from_le_bytes(img.subrange(8 + 32 * i, 8 + 32 * i + 4)) as u64,
        len: spec_u16_from_le_bytes(img.subrange(8 + 32 * i + 4, 8 + 32 * i + 6)) as u64,
        name: decoded_name(img.subrange(8 + 32 * i + 8, 8 + 32 * i + 32)),
    }
}

/// All entries of a V2 image's table, in record order.
pub open spec fn v2_entries(img: Seq<u8>) -> Seq<EntryV> {
    Seq::new(v2_count(img) as nat, |i: int| v2_entry_at(img, i))
}

// ----- canonical entries -----
/// What a V1 record round trip makes of an entry: offset and length reduced
/// to their low 32 bits, the name to what the 24-byte field holds.
pub open spec fn v1_canonical(e: EntryV) -> EntryV {
    EntryV { name: stored_name(e.name), off: (e.off as u32) as u64, len: (e.len as u32) as u64 }
}

/// What a V2 record round trip makes of an entry: as V1, but the length is
/// reduced to its low 16 bits.
pub open spec fn v2_canonical(e: EntryV) -> EntryV {
    EntryV { name: stored_name(e.name), off: (e.off as u32) as u64, len: (e.len as u16) as u64 }
}

/// An entry a V1 record holds exactly.
pub open spec fn v1_wf_entry(e: EntryV) -> bool {
    e.off <= u32::MAX && e.len <= u32::MAX && wf_name(e.name)
}

/// An entry a V2 record holds exactly.
pub open spec fn v2_wf_entry(e: EntryV) -> bool {
    e.off <= u32::MAX && e.len <= u16::MAX && wf_name(e.name)
}

/// A round trip through V1 records keeps a well-formed entry unchanged.
pub proof fn lemma_v1_canonical_id(e: EntryV)
    requires
        v1_wf_entry(e),
    ensures
        v1_canonical(e) == e,
{
    crate::name::lemma_name_round_trip(e.name);
}

/// A round trip through V2 records keeps a well-formed entry unchanged.
pub proof fn lemma_v2_canonical_id(e: EntryV)
    requires
        v2_wf_entry(e),
    ensures
        v2_canonical(e) == e,
{
    crate::name::lemma_name_round_trip(e.name);
}

// ----- record and index lengths -----
/// A V1 record is exactly 32 bytes.
pub proof fn lemma_v1_rec_len(e: EntryV)
    ensures
        v1_rec_bytes(e).len() == 32,
{
    lemma_auto_spec_u32_to_from_le_bytes();
    lemma_name_encode_len(e.name);
}

/// A V2 record is exactly 32 bytes.
pub proof fn lemma_v2_rec_len(e: EntryV)
    ensures
        v2_rec_bytes(e).len() == 32,
{
    lemma_auto_spec_u32_to_from_le_bytes();
    lemma_auto_spec_u16_to_from_le_bytes();
    lemma_name_encode_len(e.name);
}

/// A V1 index stream is exactly 32 bytes per entry.
pub proof fn lemma_v1_index_len(es: Seq<EntryV>)
    ensures
        v1_index_bytes(es).len() == 32 * es.len(),
    decreases es.len(),
{
    if es.len() != 0 {
        lemma_v1_index_len(es.drop_last());
        lemma_v1_rec_len(es.last());
    }
}

/// Appending one entry appends its record.
pub proof fn lemma_v1_index_push(es: Seq<EntryV>, e: EntryV)
    ensures
        v1_index_bytes(es.push(e)) == v1_index_bytes(es) + v1_rec_bytes(e),
{
    assert(es.push(e).drop_last() =~= es);
    assert(es.push(e).last() == e);
}

// ----- round trips -----
/// Parsing a V1 record recovers the canonical form of its entry: the record
/// may sit anywhere inside a longer stream.
proof fn lemma_v1_rec_round_trip(dir: Seq<u8>, i: int, e: EntryV)
    requires
        0 <= i,
        32 * i + 32 <= dir.len(),
        dir.subrange(32 * i, 32 * i + 32) == v1_rec_bytes(e),
    ensures
        v1_entry_at(dir, i) == v1_canonical(e),
{
    lemma_auto_spec_u32_to_from_le_bytes();
    lemma_name_encode_len(e.name);
    let rec = v1_rec_bytes(e);
    assert(dir.subrange(32 * i, 32 * i + 4) =~= rec.subrange(0, 4));
    assert(dir.subrange(32 * i + 4, 32 * i + 8) =~= rec.subrange(4, 8));
    assert(dir.subrange(32 * i + 8, 32 * i + 32) =~= rec.subrange(8, 32));
    assert(rec.subrange(0, 4) =~= spec_u32_to_le_bytes(e.off as u32));
    assert(rec.subrange(4, 8) =~= spec_u32_to_le_bytes(e.len as u32));
    assert(rec.subrange(8, 32) =~= name_encode(e.name));
}

/// Parsing a V2 table record recovers the canonical form of its entry.
proof fn lemma_v2_rec_round_trip(img: Seq<u8>, i: int, e: EntryV)
    requires
        0 <= i,
        8 + 32 * i + 32 <= img.len(),
        img.subrange(8 + 32 * i, 8 + 32 * i + 32) == v2_rec_bytes(e),
    ensures
        v2_entry_at(img, i) == v2_canonical(e),
{
    lemma_auto_spec_u32_to_from_le_bytes();
    lemma_auto_spec_u16_to_from_le_bytes();
    lemma_name_encode_len(e.name);
    let rec = v2_rec_bytes(e);
    let b = 8 + 32 * i;
    assert(img.subrange(b, b + 4) =~= rec.subrange(0, 4));
    assert(img.subrange(b + 4, b + 6) =~= rec.subrange(4, 6));
    assert(img.subrange(b + 8, b + 32) =~= rec.subrange(8, 32));
    assert(rec.subrange(0, 4) =~= spec_u32_to_le_bytes(e.off as u32));
    assert(rec.subrange(4, 6) =~= spec_u16_to_le_bytes(e.len as u16));
    assert(rec.subrange(8, 32) =~= name_encode(e.name));
}

/// The canonical form of every entry of a list.
pub open spec fn v1_canonical_all(es: Seq<EntryV>) -> Seq<EntryV> {
    es.map_values(|e: EntryV| v1_canonical(e))
}

/// The canonical form of every entry of a list, under V2 records.
pub open spec fn v2_canonical_all(es: Seq<EntryV>) -> Seq<EntryV> {
    es.map_values(|e: EntryV| v2_canonical(e))
}

/// V1 round-trip law: an index stream built from any entry list parses, and
/// parsing recovers the canonical form of every entry.
pub proof fn lemma_v1_round_trip(es: Seq<EntryV>)
    ensures
        v1_ok(v1_index_bytes(es)),
        v1_entries(v1_index_bytes(es)) == v1_canonical_all(es),
    decreases es.len(),
{
    lemma_v1_index_len(es);
    let dir = v1_index_bytes(es);
    let n = es.len() as int;
    assert(dir.len() % 32 == 0 && dir.len() / 32 == n) by (nonlinear_arith)
        requires
            dir.len() == 32 * n,
            n >= 0,
    ;
    if es.len() == 0 {
        assert(v1_entries(dir) =~= v1_canonical_all(es));
    } else {
        let prev = v1_index_bytes(es.drop_last());
        let rec = v1_rec_bytes(es.last());
        lemma_v1_round_trip(es.drop_last());
        lemma_v1_index_len(es.drop_last());
        lemma_v1_rec_len(es.last());
        assert(dir =~= prev + rec);
        assert forall|i: int| 0 <= i < n implies v1_entry_at(dir, i) == v1_canonical_all(es)[i] by {
            if i < n - 1 {
                assert(dir.subrange(32 * i, 32 * i + 4) =~= prev.subrange(32 * i, 32 * i + 4));
                assert(dir.subrange(32 * i + 4, 32 * i + 8) =~= prev.subrange(
                    32 * i + 4,
                    32 * i + 8,
                ));
                assert(dir.subrange(32 * i + 8, 32 * i + 32) =~= prev.subrange(
                    32 * i + 8,
                    32 * i + 32,
                ));
                assert(v1_entry_at(dir, i) == v1_entry_at(prev, i));
                assert(v1_entry_at(prev, i) == v1_entries(prev)[i]);
                assert(v1_canonical_all(es.drop_last())[i] == v1_canonical(es.drop_last()[i]));
            } else {
                assert(dir.subrange(32 * i, 32 * i + 32) =~= rec);
                lemma_v1_rec_round_trip(dir, i, es.last());
            }
        }
        assert(v1_entries(dir) =~= v1_canonical_all(es));
    }
}

/// V1 round-trip law, exact form: an index stream built from well-formed
/// entries parses back to exactly those entries.
pub proof fn lemma_v1_round_trip_exact(es: Seq<EntryV>)
    requires
        forall|i: int| 0 <= i < es.len() ==> v1_wf_entry(#[trigger] es[i]),
    ensures
        v1_ok(v1_index_bytes(es)),
        v1_entries(v1_index_bytes(es)) == es,
{
    lemma_v1_round_trip(es);
    assert forall|i: int| 0 <= i < es.len() implies v1_canonical_all(es)[i] == es[i] by {
        lemma_v1_canonical_id(es[i]);
    }
    assert(v1_canonical_all(es) =~= es);
}

/// What a fully written V2 image's header region holds for the entry list
/// `es` and declared count `count`: the magic, the count, and one table
/// record per entry.
pub open spec fn v2_image_wf(img: Seq<u8>, count: int, es: Seq<EntryV>) -> bool {
    &&& img.len() >= 8
    &&& img.subrange(0, 4) == v2_magic()
    &&& img.subrange(4, 8) == spec_u32_to_le_bytes(count as u32)
    &&& forall|i: int|
        0 <= i < es.len() ==> img.subrange(8 + 32 * i, 8 + 32 * i + 32) == v2_rec_bytes(
            #[trigger] es[i],
        )
}

/// V2 round-trip law: an image whose header region holds the records of
/// `es`, with declared count equal to the number of entries, parses and
/// recovers the canonical form of every entry.
pub proof fn lemma_v2_round_trip(img: Seq<u8>, es: Seq<EntryV>)
    requires
        v2_image_wf(img, es.len() as int, es),
        es.len() <= u32::MAX,
        8 + 32 * es.len() <= img.len(),
    ensures
        v2_ok(img),
        v2_entries(img) == v2_canonical_all(es),
{
    lemma_auto_spec_u32_to_from_le_bytes();
    let c: u32 = es.len() as u32;
    assert(img.subrange(4, 8) == spec_u32_to_le_bytes(c));
    assert(spec_u32_from_le_bytes(spec_u32_to_le_bytes(c)) == c);
    assert(v2_count(img) == es.len());
    assert(v2_has_magic(img)) by {
        assert(img.subrange(0, 4) =~= v2_magic());
    }
    assert forall|i: int| 0 <= i < es.len() implies v2_entry_at(img, i) == v2_canonical_all(
        es,
    )[i] by {
        lemma_v2_rec_len(es[i]);
        lemma_v2_rec_round_trip(img, i, es[i]);
    }
    assert(v2_entries(img) =~= v2_canonical_all(es));
}

/// V2 round-trip law, exact form: with well-formed entries the parse
/// recovers exactly the written entries.
pub proof fn lemma_v2_round_trip_exact(img: Seq<u8>, es: Seq<EntryV>)
    requires
        v2_image_wf(img, es.len() as int, es),
        es.len() <= u32::MAX,
        8 + 32 * es.len() <= img.len(),
        forall|i: int| 0 <= i < es.len() ==> v2_wf_entry(#[trigger] es[i]),
    ensures
        v2_ok(img),
        v2_entries(img) == es,
{
    lemma_v2_round_trip(img, es);
    assert forall|i: int| 0 <= i < es.len() implies v2_canonical_all(es)[i] == es[i] by {
        lemma_v2_canonical_id(es[i]);
    }
    assert(v2_canonical_all(es) =~= es);
}

} // verus!
