//! Writing archives: appending sector-aligned entries to a data buffer and
//! recording their directory metadata, either in a separate index buffer
//! (V1) or in a pre-sized table at the head of the combined buffer (V2).

use vstd::prelude::*;

use vstd::bytes::spec_u16_to_le_bytes;
use vstd::bytes::spec_u32_to_le_bytes;
use vstd::bytes::u16_to_le_bytes;
use vstd::bytes::u32_to_le_bytes;

use crate::codec::lemma_v1_index_push;
use crate::codec::lemma_v1_round_trip;
use crate::codec::lemma_v2_round_trip;
use crate::codec::v1_canonical_all;
use crate::codec::v1_entries;
use crate::codec::v1_index_bytes;
use crate::codec::v1_ok;
use crate::codec::v1_rec_bytes;
use crate::codec::v2_canonical_all;
use crate::codec::v2_entries;
use crate::codec::v2_image_wf;
use crate::codec::v2_ok;
use crate::codec::v2_magic;
use crate::codec::v2_rec_bytes;
use crate::codec::EntryV;
use crate::error::WriteError;
use crate::name::name_encode;
use crate::name::null_bytes;
use crate::name::to_null_terminated;
use crate::sector::bytes_to_sectors;
use crate::sector::lemma_sectors_bounds;
use crate::sector::spec_padding;
use crate::sector::spec_sectors;

verus! {

/// The bytes `s` with `b` written over it starting at `at`: the buffer
/// grows as needed, and any gap between the end of `s` and `at` reads as
/// zeros, as a sparse file would.
pub open spec fn overwrite(s: Seq<u8>, at: int, b: Seq<u8>) -> Seq<u8>
    recommends
        0 <= at,
{
    Seq::new(
        if s.len() >= at + b.len() {
            s.len()
        } else {
            (at + b.len()) as nat
        },
        |i: int|
            if at <= i < at + b.len() {
                b[i - at]
            } else if i < s.len() {
                s[i]
            } else {
                0u8
            },
    )
}

/// Appends all of `src` to `dst`.
fn append_bytes(dst: &mut Vec<u8>, src: &Vec<u8>)
    ensures
        final(dst)@ == old(dst)@ + src@,
{
    let n = src.len();
    let mut i: usize = 0;
    while i < n
        invariant
            0 <= i <= n,
            n == src@.len(),
            dst@ == old(dst)@ + src@.take(i as int),
        decreases n - i,
    {
        dst.push(src[i]);
        i = i + 1;
        proof {
            assert(old(dst)@ + src@.take(i as int) =~= (old(dst)@ + src@.take(i as int - 1)).push(
                src@[i as int - 1],
            ));
        }
    }
    proof {
        assert(old(dst)@ + src@.take(n as int) =~= old(dst)@ + src@);
    }
}

/// Appends `n` zero bytes to `dst`.
fn append_zeros(dst: &mut Vec<u8>, n: u64)
    ensures
        final(dst)@ == old(dst)@ + null_bytes(n as nat),
{
    let mut i: u64 = 0;
    while i < n
        invariant
            0 <= i <= n,
            dst@ == old(dst)@ + null_bytes(i as nat),
        decreases n - i,
    {
        dst.push(0);
        i = i + 1;
        proof {
            assert(old(dst)@ + null_bytes(i as nat) =~= (old(dst)@ + null_bytes(
                (i - 1) as nat,
            )).push(0u8));
        }
    }
    proof {
        assert(dst@ =~= old(dst)@ + null_bytes(n as nat));
    }
}

/// Writes `bytes` into `dst` at byte position `at`, zero-filling any gap
/// beyond the current end of `dst` and growing it as needed.
fn store_at(dst: &mut Vec<u8>, at: usize, bytes: &Vec<u8>)
    requires
        at + bytes@.len() <= usize::MAX,
    ensures
        final(dst)@ == overwrite(old(dst)@, at as int, bytes@),
{
    let mut k = dst.len();
    while k < at
        invariant
            k == dst@.len(),
            old(dst)@.len() <= k,
            k <= at || k == old(dst)@.len(),
            at <= usize::MAX,
            dst@ == old(dst)@ + null_bytes((k - old(dst)@.len()) as nat),
        decreases at - k,
    {
        dst.push(0);
        k = k + 1;
        proof {
            assert(old(dst)@ + null_bytes((k - old(dst)@.len()) as nat) =~= (old(dst)@
                + null_bytes((k - 1 - old(dst)@.len()) as nat)).push(0u8));
        }
    }
    let ghost ext = dst@;
    proof {
        assert(ext.len() >= at);
        assert(forall|j: int| 0 <= j < old(dst)@.len() ==> ext[j] == old(dst)@[j]);
        assert(forall|j: int| old(dst)@.len() <= j < ext.len() ==> ext[j] == 0u8);
    }
    let n = bytes.len();
    let mut i: usize = 0;
    while i < n
        invariant
            0 <= i <= n,
            n == bytes@.len(),
            at + n <= usize::MAX,
            ext.len() >= at,
            dst@.len() == if ext.len() >= at + i {
                ext.len() as int
            } else {
                at + i as int
            },
            forall|j: int| 0 <= j < at ==> dst@[j] == ext[j],
            forall|j: int| at <= j < at + i ==> dst@[j] == bytes@[j - at],
            forall|j: int| at + i <= j < ext.len() ==> dst@[j] == ext[j],
        decreases n - i,
    {
        let p = at + i;
        if p < dst.len() {
            let b = bytes[i];
            dst[p] = b;
        } else {
            dst.push(bytes[i]);
        }
        i = i + 1;
    }
    proof {
        let ghost ov = overwrite(old(dst)@, at as int, bytes@);
        assert(ext.len() == if old(dst)@.len() >= at as int {
            old(dst)@.len() as int
        } else {
            at as int
        });
        assert(dst@.len() == ov.len());
        assert forall|j: int| 0 <= j < ov.len() implies dst@[j] == ov[j] by {
            assert(ov[j] == if at <= j < at + bytes@.len() {
                bytes@[j - at]
            } else if j < old(dst)@.len() {
                old(dst)@[j]
            } else {
                0u8
            });
            if at <= j < at + bytes@.len() {
                assert(dst@[j] == bytes@[j - at]);
            } else if j < at {
                assert(dst@[j] == ext[j]);
                if j < old(dst)@.len() {
                    assert(ext[j] == old(dst)@[j]);
                } else {
                    assert(ext[j] == 0u8);
                }
            } else {
                assert(j >= at + bytes@.len());
                assert(j < ext.len());
                assert(dst@[j] == ext[j]);
                if j < old(dst)@.len() {
                    assert(ext[j] == old(dst)@[j]);
                } else {
                    assert(ext[j] == 0u8);
                }
            }
        }
        assert(dst@ =~= ov);
    }
}

/// Builds a vector of `n` zero bytes.
fn zero_vec(n: u64) -> (r: Vec<u8>)
    ensures
        r@ == null_bytes(n as nat),
{
    let mut r: Vec<u8> = Vec::new();
    append_zeros(&mut r, n);
    proof {
        assert(Seq::<u8>::empty() + null_bytes(n as nat) =~= null_bytes(n as nat));
    }
    r
}

/// An archive writer that appends one entry per call.
pub trait Writer: Sized {
    /// Whether the writer can accept a payload of `payload_len` bytes: the
    /// writer must be well formed and the advanced sector cursor must still
    /// fit the on-disk record fields.
    spec fn write_pre(&self, payload_len: nat) -> bool;

    /// Attempts to append a single entry called `name` with the payload
    /// bytes of `src`.
    fn write(&mut self, name: &str, src: &Vec<u8>) -> Result<(), WriteError>
        requires
            old(self).write_pre(src@.len()),
    ;
}

/// The value of a V1 writer: the index and data buffers built so far, the
/// sector cursor, and the entries written so far.
pub ghost struct V1WriterV {
    pub dir: Seq<u8>,
    pub img: Seq<u8>,
    pub sector: u64,
    pub entries: Seq<EntryV>,
}

/// A writer of V1 archives: builds a separate index (`dir`) buffer and
/// data (`img`) buffer, appending each entry's payload sector-aligned.
pub struct V1Writer {
    dir: Vec<u8>,
    img: Vec<u8>,
    sector: u64,
    log: Ghost<Seq<EntryV>>,
}

impl View for V1Writer {
    type V = V1WriterV;

    closed spec fn view(&self) -> V1WriterV {
        V1WriterV { dir: self.dir@, img: self.img@, sector: self.sector, entries: self.log@ }
    }
}

impl V1Writer {
    /// The index buffer holds exactly the records of the entries written,
    /// and the data buffer ends exactly at the sector cursor.
    pub open spec fn wf(&self) -> bool {
        &&& self@.dir == v1_index_bytes(self@.entries)
        &&& self@.img.len() == self@.sector * 2048
    }

    /// Creates a V1 writer with empty index and data buffers.
    pub fn new() -> (r: V1Writer)
        ensures
            r.wf(),
            r@.dir == Seq::<u8>::empty(),
            r@.img == Seq::<u8>::empty(),
            r@.sector == 0,
            r@.entries == Seq::<EntryV>::empty(),
    {
        V1Writer { dir: Vec::new(), img: Vec::new(), sector: 0, log: Ghost(Seq::empty()) }
    }

    /// Returns the index buffer built so far.
    pub fn dir(&self) -> (r: &Vec<u8>)
        ensures
            r@ == self@.dir,
    {
        &self.dir
    }

    /// Returns the data buffer built so far.
    pub fn img(&self) -> (r: &Vec<u8>)
        ensures
            r@ == self@.img,
    {
        &self.img
    }
}

impl Writer for V1Writer {
    open spec fn write_pre(&self, payload_len: nat) -> bool {
        self.wf() && self@.sector + spec_sectors(payload_len) <= u32::MAX
    }

    /// Appends the payload at the sector cursor, pads it to a whole number
    /// of sectors, appends the entry's 32-byte record to the index buffer
    /// and advances the cursor.  Never fails: the index grows unbounded.
    fn write(&mut self, name: &str, src: &Vec<u8>) -> (r: Result<(), WriteError>)
        ensures
            r is Ok,
            final(self).wf(),
            final(self)@.sector == old(self)@.sector + spec_sectors(src@.len()),
            final(self)@.entries == old(self)@.entries.push(
                EntryV {
                    name: name@,
                    off: old(self)@.sector,
                    len: spec_sectors(src@.len()) as u64,
                },
            ),
            final(self)@.dir == old(self)@.dir + v1_rec_bytes(final(self)@.entries.last()),
            final(self)@.img == old(self)@.img + src@ + null_bytes(spec_padding(src@.len())),
    {
        let bytes = src.len() as u64;
        let sectors = bytes_to_sectors(bytes);
        proof {
            lemma_sectors_bounds(bytes as nat);
        }
        let pad = sectors * 2048 - bytes;
        let offset = self.sector;
        append_bytes(&mut self.img, src);
        append_zeros(&mut self.img, pad);
        let off_le = u32_to_le_bytes(offset as u32);
        let len_le = u32_to_le_bytes(sectors as u32);
        let name_field = to_null_terminated(name);
        append_bytes(&mut self.dir, &off_le);
        append_bytes(&mut self.dir, &len_le);
        append_bytes(&mut self.dir, &name_field);
        let ghost entry = EntryV { name: name@, off: offset, len: sectors };
        proof {
            lemma_v1_index_push(old(self)@.entries, entry);
            assert(v1_rec_bytes(entry) =~= spec_u32_to_le_bytes(offset as u32)
                + spec_u32_to_le_bytes(sectors as u32) + name_encode(name@));
            assert(self.dir@ =~= v1_index_bytes(old(self)@.entries) + v1_rec_bytes(entry));
            assert(self.img@ =~= old(self)@.img + src@ + null_bytes(spec_padding(src@.len())));
        }
        self.sector = self.sector + sectors;
        self.log = Ghost(self.log@.push(entry));
        proof {
            assert(self@.dir == v1_index_bytes(self@.entries));
            let ghost olen = old(self)@.img.len() as int;
            let ghost osec = old(self)@.sector as int;
            let ghost secs = spec_sectors(src@.len()) as int;
            let ghost plen = src@.len() as int;
            let ghost padn = spec_padding(src@.len()) as int;
            assert(self@.img.len() == olen + plen + padn);
            assert(self@.sector == osec + secs);
            assert(olen + plen + padn == (osec + secs) * 2048) by (nonlinear_arith)
                requires
                    olen == osec * 2048,
                    plen + padn == secs * 2048,
            ;
        }
        Ok(())
    }
}

/// The value of a V2 writer: the combined buffer built so far, the sector
/// cursor, the entry count declared in the header, and the entries written
/// so far.
pub ghost struct V2WriterV {
    pub img: Seq<u8>,
    pub sector: u64,
    pub capacity: usize,
    pub entries: Seq<EntryV>,
}

/// A writer of V2 archives: writes the magic header and declared entry
/// count up front, reserves the table region, and fills one table slot and
/// one sector-aligned payload per write.
pub struct V2Writer {
    img: Vec<u8>,
    sector: u64,
    entries: usize,
    written: usize,
    log: Ghost<Seq<EntryV>>,
}

impl View for V2Writer {
    type V = V2WriterV;

    closed spec fn view(&self) -> V2WriterV {
        V2WriterV {
            img: self.img@,
            sector: self.sector,
            capacity: self.entries,
            entries: self.log@,
        }
    }
}

impl V2Writer {
    /// The buffer holds the magic, the declared count and the table slots
    /// of the entries written so far; the data region starts beyond the
    /// whole declared table, and the buffer ends at the sector cursor once
    /// anything has been written.
    pub open spec fn wf(&self) -> bool {
        &&& v2_image_wf(self@.img, self@.capacity as int, self@.entries)
        &&& self@.entries.len() <= self@.capacity
        &&& self@.capacity <= u32::MAX
        &&& self.written_count() == self@.entries.len()
        &&& 8 + 32 * (self@.capacity as int) <= self@.sector * 2048
        &&& self@.img.len() == if self@.entries.len() == 0 {
            8int
        } else {
            self@.sector * 2048
        }
    }

    /// The number of entries written so far, as the writer counts them.
    pub closed spec fn written_count(&self) -> int {
        self.written as int
    }

    /// Creates a V2 writer that declares `entries` entries in its header:
    /// the magic and the count are written immediately, and the data region
    /// is placed after the `entries` reserved 32-byte table slots.
    pub fn new(entries: usize) -> (r: V2Writer)
        requires
            entries <= u32::MAX,
        ensures
            r.wf(),
            r@.img == v2_magic() + spec_u32_to_le_bytes(entries as u32),
            r@.sector == spec_sectors((8 + 32 * entries) as nat),
            r@.capacity == entries,
            r@.entries == Seq::<EntryV>::empty(),
    {
        let mut img: Vec<u8> = Vec::new();
        img.push(0x56);
        img.push(0x45);
        img.push(0x52);
        img.push(0x32);
        let count_le = u32_to_le_bytes(entries as u32);
        append_bytes(&mut img, &count_le);
        let header_bytes: u64 = 8 + 32 * (entries as u64);
        let sector = bytes_to_sectors(header_bytes);
        proof {
            lemma_sectors_bounds(header_bytes as nat);
            assert(img@ =~= v2_magic() + spec_u32_to_le_bytes(entries as u32));
        }
        let r = V2Writer { img, sector, entries, written: 0, log: Ghost(Seq::empty()) };
        proof {
            assert(r@.img.subrange(0, 4) =~= v2_magic());
            assert(r@.img.subrange(4, 8) =~= spec_u32_to_le_bytes(entries as u32));
        }
        r
    }

    /// Returns the combined buffer built so far.
    pub fn img(&self) -> (r: &Vec<u8>)
        ensures
            r@ == self@.img,
    {
        &self.img
    }
}

impl Writer for V2Writer {
    open spec fn write_pre(&self, payload_len: nat) -> bool {
        &&& self.wf()
        &&& self@.sector + spec_sectors(payload_len) <= u32::MAX
        &&& spec_sectors(payload_len) <= u16::MAX
        &&& (self@.sector + spec_sectors(payload_len)) * 2048 <= usize::MAX
    }

    /// Appends the payload at the sector cursor, pads it to a whole number
    /// of sectors, records the entry in the next free table slot and
    /// advances the cursor.  Fails, leaving the writer and its buffer
    /// unchanged, when as many entries have been written as the header
    /// declared.
    fn write(&mut self, name: &str, src: &Vec<u8>) -> (r: Result<(), WriteError>)
        ensures
            old(self)@.entries.len() >= old(self)@.capacity ==> r == Result::<
                (),
                WriteError,
            >::Err(WriteError::InsufficientHeaderSize) && final(self)@ == old(self)@,
            old(self)@.entries.len() < old(self)@.capacity ==> {
                &&& r is Ok
                &&& final(self).wf()
                &&& final(self)@.capacity == old(self)@.capacity
                &&& final(self)@.sector == old(self)@.sector + spec_sectors(src@.len())
                &&& final(self)@.entries == old(self)@.entries.push(
                    EntryV {
                        name: name@,
                        off: old(self)@.sector,
                        len: spec_sectors(src@.len()) as u64,
                    },
                )
                &&& final(self)@.img.subrange(
                    old(self)@.sector * 2048,
                    old(self)@.sector * 2048 + src@.len(),
                ) == src@
                &&& final(self)@.img.len() == final(self)@.sector * 2048
                &&& forall|j: int|
                    0 <= j < old(self)@.img.len() && !(8 + 32 * old(self)@.entries.len() <= j < 40
                        + 32 * old(self)@.entries.len()) ==> final(self)@.img[j]
                        == old(self)@.img[j]
                &&& forall|j: int|
                    old(self)@.sector * 2048 + src@.len() <= j < final(self)@.img.len()
                        ==> final(self)@.img[j] == 0
                &&& forall|j: int|
                    old(self)@.img.len() <= j < old(self)@.sector * 2048 && !(8 + 32 * old(
                        self,
                    )@.entries.len() <= j < 40 + 32 * old(self)@.entries.len())
                        ==> final(self)@.img[j] == 0
            },
    {
        if self.written >= self.entries {
            return Err(WriteError::InsufficientHeaderSize);
        }
        let bytes = src.len() as u64;
        let sectors = bytes_to_sectors(bytes);
        proof {
            lemma_sectors_bounds(bytes as nat);
            assert((self@.sector * 2048 + bytes) <= (self@.sector + spec_sectors(bytes as nat))
                * 2048) by (nonlinear_arith)
                requires
                    bytes <= spec_sectors(bytes as nat) * 2048,
            ;
        }
        let pad = sectors * 2048 - bytes;
        let offset = self.sector;
        let base = offset * 2048;
        store_at(&mut self.img, base as usize, src);
        let padv = zero_vec(pad);
        store_at(&mut self.img, base as usize + src.len(), &padv);
        let mut rec: Vec<u8> = Vec::new();
        let off_le = u32_to_le_bytes(offset as u32);
        let len_le = u16_to_le_bytes(sectors as u16);
        let name_field = to_null_terminated(name);
        append_bytes(&mut rec, &off_le);
        append_bytes(&mut rec, &len_le);
        rec.push(0);
        rec.push(0);
        append_bytes(&mut rec, &name_field);
        let ghost entry = EntryV { name: name@, off: offset, len: sectors };
        proof {
            assert(rec@ =~= v2_rec_bytes(entry));
        }
        let slot = 8 + 32 * self.written;
        store_at(&mut self.img, slot, &rec);
        self.sector = self.sector + sectors;
        self.written = self.written + 1;
        self.log = Ghost(self.log@.push(entry));
        proof {
            lemma_v2_write_shape(old(self)@, self@, entry, src@, slot as int, base as int);
        }
        Ok(())
    }
}

/// The buffer shape after one V2 write: placing the payload, its padding
/// and the new table slot preserves the header, every earlier slot and all
/// earlier data, and extends the buffer to the new cursor.
proof fn lemma_v2_write_shape(
    o: V2WriterV,
    n: V2WriterV,
    entry: EntryV,
    payload: Seq<u8>,
    slot: int,
    base: int,
)
    requires
        v2_image_wf(o.img, o.capacity as int, o.entries),
        o.entries.len() < o.capacity,
        o.capacity <= u32::MAX,
        8 + 32 * (o.capacity as int) <= o.sector * 2048,
        o.img.len() == if o.entries.len() == 0 {
            8int
        } else {
            o.sector * 2048
        },
        base == o.sector * 2048,
        slot == 8 + 32 * o.entries.len(),
        entry.off == o.sector,
        entry.len == spec_sectors(payload.len()),
        payload.len() + spec_padding(payload.len()) == spec_sectors(payload.len()) * 2048,
        n.img == overwrite(
            overwrite(
                overwrite(o.img, base, payload),
                base + payload.len(),
                null_bytes(spec_padding(payload.len())),
            ),
            slot,
            v2_rec_bytes(entry),
        ),
        n.capacity == o.capacity,
        n.sector == o.sector + spec_sectors(payload.len()),
        n.entries == o.entries.push(entry),
    ensures
        v2_image_wf(n.img, n.capacity as int, n.entries),
        n.entries.len() <= n.capacity,
        8 + 32 * (n.capacity as int) <= n.sector * 2048,
        n.img.len() == n.sector * 2048,
        n.img.subrange(base, base + payload.len()) == payload,
        forall|j: int|
            0 <= j < o.img.len() && !(slot <= j < slot + 32) ==> n.img[j] == o.img[j],
        forall|j: int| base + payload.len() <= j < n.img.len() ==> n.img[j] == 0,
        forall|j: int|
            o.img.len() <= j < base && !(slot <= j < slot + 32) ==> n.img[j] == 0,
{
    crate::codec::lemma_v2_rec_len(entry);
    let after_payload = overwrite(o.img, base, payload);
    let after_pad = overwrite(
        after_payload,
        base + payload.len(),
        null_bytes(spec_padding(payload.len())),
    );
    assert(n.sector * 2048 == o.sector * 2048 + spec_sectors(payload.len()) * 2048)
        by (nonlinear_arith)
        requires
            n.sector == o.sector + spec_sectors(payload.len()),
    ;
    assert(after_pad.len() == n.sector * 2048);
    assert(slot + 32 <= 8 + 32 * (o.capacity as int));
    assert(n.img.len() == n.sector * 2048);
    assert(n.img.subrange(base, base + payload.len()) =~= payload);
    assert(n.img.subrange(0, 4) =~= o.img.subrange(0, 4));
    assert(n.img.subrange(4, 8) =~= o.img.subrange(4, 8));
    assert forall|i: int| 0 <= i < n.entries.len() implies n.img.subrange(
        8 + 32 * i,
        8 + 32 * i + 32,
    ) == v2_rec_bytes(#[trigger] n.entries[i]) by {
        if i < o.entries.len() {
            assert(n.entries[i] == o.entries[i]);
            assert(n.img.subrange(8 + 32 * i, 8 + 32 * i + 32) =~= o.img.subrange(
                8 + 32 * i,
                8 + 32 * i + 32,
            ));
        } else {
            assert(n.entries[i] == entry);
            assert(n.img.subrange(8 + 32 * i, 8 + 32 * i + 32) =~= v2_rec_bytes(entry));
        }
    }
}

/// Round-trip law for V1: the index buffer a well-formed V1 writer has
/// built always parses, and parsing recovers the canonical form of every
/// entry written (exactly the entries written, when their names and sizes
/// fit the record fields).
pub proof fn lemma_v1_writer_round_trip(w: V1WriterV)
    requires
        w.dir == v1_index_bytes(w.entries),
    ensures
        v1_ok(w.dir),
        v1_entries(w.dir) == v1_canonical_all(w.entries),
{
    lemma_v1_round_trip(w.entries);
}

/// Round-trip law for V2: the combined buffer a well-formed V2 writer has
/// built, once as many entries have been written as its header declared,
/// always parses, and parsing recovers the canonical form of every entry
/// written.
pub proof fn lemma_v2_writer_round_trip(w: V2WriterV)
    requires
        v2_image_wf(w.img, w.capacity as int, w.entries),
        w.entries.len() == w.capacity,
        w.capacity <= u32::MAX,
        8 + 32 * (w.capacity as int) <= w.img.len(),
    ensures
        v2_ok(w.img),
        v2_entries(w.img) == v2_canonical_all(w.entries),
{
    lemma_v2_round_trip(w.img, w.entries);
}

} // verus!
