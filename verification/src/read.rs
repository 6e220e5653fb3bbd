//! Reading archives: parsing an index into entries, looking entries up, and
//! streaming an entry's payload out of the data buffer.

use vstd::prelude::*;

use vstd::bytes::spec_u16_from_le_bytes;
use vstd::bytes::spec_u32_from_le_bytes;
use vstd::bytes::u16_from_le_bytes;
use vstd::bytes::u32_from_le_bytes;
use vstd::math::min;
use vstd::slice::slice_subrange;
use vstd::slice::slice_to_vec;

use crate::codec::v1_entries;
use crate::codec::v1_entry_at;
use crate::codec::v1_ok;
use crate::codec::v2_count;
use crate::codec::v2_entries;
use crate::codec::v2_entry_at;
use crate::codec::v2_has_magic;
use crate::codec::v2_magic;
use crate::codec::v2_ok;
use crate::codec::EntryV;
use crate::error::ReadError;
use crate::name::read_null_terminated;

verus! {

/// One archived item: its name and its position and extent in the data
/// buffer, both counted in whole sectors.
#[derive(Debug, Clone, PartialEq, Eq, Hash)]
pub struct Entry {
    /// The decoded entry name, up to 24 characters.
    pub name: String,
    /// The offset of the entry's payload, in sectors.
    pub off: u64,
    /// The length of the entry's payload, in sectors.
    pub len: u64,
}

impl View for Entry {
    type V = EntryV;

    open spec fn view(&self) -> EntryV {
        EntryV { name: self.name@, off: self.off, len: self.len }
    }
}

/// The values of a sequence of entries.
pub open spec fn entries_view(s: Seq<Entry>) -> Seq<EntryV> {
    s.map_values(|e: Entry| e@)
}

/// The value of an archive: its parsed entries, in index order, and the
/// bytes of its data buffer.
pub ghost struct ArchiveV {
    pub entries: Seq<EntryV>,
    pub data: Seq<u8>,
}

/// A parsed archive: an ordered entry index together with the data buffer
/// the entries' offsets point into.
#[derive(Debug)]
pub struct Archive {
    entries: Vec<Entry>,
    data: Vec<u8>,
}

/// The value of an opened entry stream: the data buffer it reads from, the
/// byte offset and byte length of the entry's payload, and the read cursor.
pub ghost struct OpenEntryV {
    pub data: Seq<u8>,
    pub off: u64,
    pub len: u64,
    pub pos: u64,
}

/// A bounded stream over one entry's payload bytes: repeated reads walk the
/// payload without copying it whole, and stop at the entry's declared
/// length.
#[derive(Debug)]
pub struct OpenEntry<'a> {
    data: &'a Vec<u8>,
    off: u64,
    len: u64,
    pos: u64,
}

impl View for Archive {
    type V = ArchiveV;

    closed spec fn view(&self) -> ArchiveV {
        ArchiveV { entries: entries_view(self.entries@), data: self.data@ }
    }
}

impl<'a> View for OpenEntry<'a> {
    type V = OpenEntryV;

    closed spec fn view(&self) -> OpenEntryV {
        OpenEntryV { data: self.data@, off: self.off, len: self.len, pos: self.pos }
    }
}

impl Archive {
    /// Entry offsets and lengths always fit the widest on-disk field, so
    /// sector-to-byte conversions cannot overflow.
    #[verifier::type_invariant]
    spec fn inv(self) -> bool {
        forall|i: int|
            0 <= i < self.entries@.len() ==> (#[trigger] self.entries@[i]).off <= u32::MAX
                && self.entries@[i].len <= u32::MAX
    }

    /// Returns the number of entries in the archive.
    pub fn len(&self) -> (n: usize)
        ensures
            n == self@.entries.len(),
    {
        self.entries.len()
    }

    /// Returns whether the archive holds no entries.
    pub fn is_empty(&self) -> (r: bool)
        ensures
            r <==> self@.entries.len() == 0,
    {
        self.entries.is_empty()
    }

    /// Returns the entry at the given index, or nothing when the index is
    /// out of range.
    pub fn get(&self, index: usize) -> (r: Option<&Entry>)
        ensures
            match r {
                Some(e) => index < self@.entries.len() && e@ == self@.entries[index as int],
                None => index >= self@.entries.len(),
            },
    {
        if index < self.entries.len() {
            Some(&self.entries[index])
        } else {
            None
        }
    }

    /// Returns the entries of the archive, in index order.
    pub fn iter(&self) -> (r: &Vec<Entry>)
        ensures
            entries_view(r@) == self@.entries,
    {
        &self.entries
    }

    /// Opens the entry at the given index for reading, or nothing when the
    /// index is out of range.  No bytes are read until the stream is; the
    /// stream starts at the beginning of the entry's payload.
    pub fn open(&self, index: usize) -> (r: Option<OpenEntry<'_>>)
        ensures
            match r {
                Some(os) => {
                    &&& index < self@.entries.len()
                    &&& os@.data == self@.data
                    &&& os@.off == self@.entries[index as int].off * crate::SECTOR_SIZE
                    &&& os@.len == self@.entries[index as int].len * crate::SECTOR_SIZE
                    &&& os@.pos == 0
                },
                None => index >= self@.entries.len(),
            },
    {
        proof {
            use_type_invariant(self);
        }
        if index < self.entries.len() {
            let entry = &self.entries[index];
            Some(OpenEntry { data: &self.data, off: entry.off * 2048, len: entry.len * 2048, pos: 0 })
        } else {
            None
        }
    }
}

/// How many bytes one read call produces from the stream state `s` into a
/// buffer of `buf_len` bytes: nothing at or past the end of the entry, and
/// otherwise as many bytes as the entry's remaining length, the buffer and
/// the data buffer allow.
pub open spec fn read_amount(s: OpenEntryV, buf_len: int) -> int {
    if s.pos >= s.len {
        0
    } else {
        let start = s.off + s.pos;
        let want = min(s.len - s.pos, buf_len);
        let avail = if s.data.len() > start {
            s.data.len() - start
        } else {
            0
        };
        min(want, avail)
    }
}

/// The bytes one read call produces from the stream state `s`.
pub open spec fn read_result(s: OpenEntryV, buf_len: int) -> Seq<u8> {
    if read_amount(s, buf_len) == 0 {
        Seq::empty()
    } else {
        s.data.subrange(s.off + s.pos, s.off + s.pos + read_amount(s, buf_len))
    }
}

/// The stream state after a read that produced `n` bytes.
pub open spec fn advanced(s: OpenEntryV, n: int) -> OpenEntryV {
    OpenEntryV { data: s.data, off: s.off, len: s.len, pos: (s.pos + n) as u64 }
}

impl<'a> OpenEntry<'a> {
    /// The byte range of the stream lies within converted sector fields and
    /// the cursor within the entry.
    #[verifier::type_invariant]
    spec fn inv(self) -> bool {
        self.off <= 0xffff_ffffu64 * 2048 && self.len <= 0xffff_ffffu64 * 2048 && self.pos
            <= self.len
    }

    /// Reads the next bytes of the entry's payload into the start of `buf`.
    ///
    /// At or past the end of the entry the call produces zero bytes,
    /// repeatedly and without error; otherwise it fills `buf` with the next
    /// payload bytes, stopping at the entry's declared length, at the end
    /// of `buf`, or at the end of the data buffer, whichever comes first.
    /// Bytes of `buf` beyond the count produced are left unchanged.
    pub fn read(&mut self, buf: &mut Vec<u8>) -> (n: usize)
        ensures
            n == read_amount(old(self)@, old(buf)@.len() as int),
            final(self)@ == advanced(old(self)@, n as int),
            final(buf)@.len() == old(buf)@.len(),
            final(buf)@.subrange(0, n as int) == read_result(old(self)@, old(buf)@.len() as int),
            forall|i: int| n <= i < final(buf)@.len() ==> final(buf)@[i] == old(buf)@[i],
    {
        proof {
            use_type_invariant(&*self);
        }
        if self.pos >= self.len {
            proof {
                assert(buf@.subrange(0, 0) =~= read_result(self@, buf@.len() as int));
            }
            return 0;
        }
        let start = self.off + self.pos;
        let dlen = self.data.len() as u64;
        if start >= dlen {
            proof {
                assert(buf@.subrange(0, 0) =~= read_result(self@, buf@.len() as int));
            }
            return 0;
        }
        let mut want = self.len - self.pos;
        let blen = buf.len() as u64;
        if blen < want {
            want = blen;
        }
        let avail = dlen - start;
        let n64 = if avail < want {
            avail
        } else {
            want
        };
        let n = n64 as usize;
        let base = start as usize;
        let mut i: usize = 0;
        while i < n
            invariant
                0 <= i <= n,
                n + base <= self.data@.len(),
                base + n <= usize::MAX,
                n <= buf@.len(),
                buf@.len() == old(buf)@.len(),
                forall|j: int| 0 <= j < i ==> buf@[j] == self.data@[base + j],
                forall|j: int| i <= j < buf@.len() ==> buf@[j] == old(buf)@[j],
            decreases n - i,
        {
            let b = self.data[base + i];
            buf[i] = b;
            i = i + 1;
        }
        self.pos = self.pos + n64;
        proof {
            assert(buf@.subrange(0, n as int) =~= read_result(old(self)@, old(buf)@.len() as int));
        }
        n
    }
}

/// At or past the end of the entry, reads keep producing zero bytes and
/// leave the stream where it is, whatever the buffer size.
pub proof fn lemma_read_after_end(s: OpenEntryV, buf_len: int)
    requires
        s.pos >= s.len,
    ensures
        read_amount(s, buf_len) == 0,
        advanced(s, read_amount(s, buf_len)) == s,
{
}

/// A read never produces more bytes than remain before the entry's declared
/// length: padding past the payload is never returned.
pub proof fn lemma_read_bounded(s: OpenEntryV, buf_len: int)
    ensures
        read_amount(s, buf_len) <= s.len - s.pos || read_amount(s, buf_len) == 0,
        s.pos + read_amount(s, buf_len) <= s.len || read_amount(s, buf_len) == 0,
{
}

/// One read with a buffer at least as large as the whole entry produces
/// exactly the entry's payload, when the data buffer covers it.
pub proof fn lemma_single_read_full(s: OpenEntryV, buf_len: int)
    requires
        s.pos == 0,
        buf_len >= s.len,
        s.off + s.len <= s.data.len(),
    ensures
        read_amount(s, buf_len) == s.len,
        read_result(s, buf_len) == s.data.subrange(s.off as int, s.off + s.len),
{
    assert(read_result(s, buf_len) =~= s.data.subrange(s.off as int, s.off + s.len));
}

/// Two consecutive reads produce together exactly what one read with the
/// combined buffer size produces: chunked reading and one large read yield
/// the same bytes.
pub proof fn lemma_chunked_read(s: OpenEntryV, b1: int, b2: int)
    requires
        b1 >= 0,
        b2 >= 0,
    ensures
        read_amount(s, b1) + read_amount(advanced(s, read_amount(s, b1)), b2) == read_amount(
            s,
            b1 + b2,
        ),
        read_result(s, b1) + read_result(advanced(s, read_amount(s, b1)), b2) == read_result(
            s,
            b1 + b2,
        ),
{
    let n1 = read_amount(s, b1);
    let s1 = advanced(s, n1);
    let n2 = read_amount(s1, b2);
    assert(read_result(s, b1) + read_result(s1, b2) =~= read_result(s, b1 + b2));
}

/// A reader of V1 archives: a separate index (`dir`) buffer and data
/// (`img`) buffer.
#[derive(Debug)]
pub struct V1Reader {
    dir: Vec<u8>,
    img: Vec<u8>,
}

/// A reader of V2 archives: one combined (`img`) buffer holding header,
/// entry table and data.
#[derive(Debug)]
pub struct V2Reader {
    img: Vec<u8>,
}

/// The value of a V1 reader: the bytes of its two buffers.
pub ghost struct V1ReaderV {
    pub dir: Seq<u8>,
    pub img: Seq<u8>,
}

impl View for V1Reader {
    type V = V1ReaderV;

    closed spec fn view(&self) -> V1ReaderV {
        V1ReaderV { dir: self.dir@, img: self.img@ }
    }
}

impl View for V2Reader {
    type V = Seq<u8>;

    closed spec fn view(&self) -> Seq<u8> {
        self.img@
    }
}

/// An archive reader that parses its buffers into an [`Archive`].
pub trait Reader: Sized {
    /// Attempts to fully read an entire archive, consuming the reader.
    fn read(self) -> Result<Archive, ReadError>;
}

impl V1Reader {
    /// Creates a V1 reader over the given index (`dir`) and data (`img`)
    /// buffers.
    pub fn new(dir: Vec<u8>, img: Vec<u8>) -> (r: V1Reader)
        ensures
            r@.dir == dir@,
            r@.img == img@,
    {
        V1Reader { dir, img }
    }
}

impl V2Reader {
    /// Creates a V2 reader over the given combined (`img`) buffer.
    pub fn new(img: Vec<u8>) -> (r: V2Reader)
        ensures
            r@ == img@,
    {
        V2Reader { img }
    }
}

/// Reads the little-endian `u32` at byte offset `at`.
fn read_u32_at(data: &Vec<u8>, at: usize) -> (x: u32)
    requires
        at + 4 <= data@.len(),
    ensures
        x == spec_u32_from_le_bytes(data@.subrange(at as int, at + 4)),
{
    let s = data.as_slice();
    let total = s.len();
    assert(at + 4 <= total);
    u32_from_le_bytes(slice_subrange(s, at, at + 4))
}

/// Reads the little-endian `u16` at byte offset `at`.
fn read_u16_at(data: &Vec<u8>, at: usize) -> (x: u16)
    requires
        at + 2 <= data@.len(),
    ensures
        x == spec_u16_from_le_bytes(data@.subrange(at as int, at + 2)),
{
    let s = data.as_slice();
    let total = s.len();
    assert(at + 2 <= total);
    u16_from_le_bytes(slice_subrange(s, at, at + 2))
}

/// Decodes the 24-byte name field at byte offset `at`.
fn read_name_at(data: &Vec<u8>, at: usize) -> (name: String)
    requires
        at + 24 <= data@.len(),
    ensures
        name@ == crate::name::decoded_name(data@.subrange(at as int, at + 24)),
{
    let s = data.as_slice();
    let total = s.len();
    assert(at + 24 <= total);
    let field = slice_to_vec(slice_subrange(s, at, at + 24));
    read_null_terminated(&field)
}

impl Reader for V1Reader {
    /// Parses the index buffer as a run of 32-byte records.  Succeeds iff
    /// the buffer ends exactly at a record boundary; the archive then holds
    /// the records' entries, in order, over the data buffer.
    fn read(self) -> (r: Result<Archive, ReadError>)
        ensures
            r is Ok <==> v1_ok(self@.dir),
            match r {
                Ok(a) => a@.entries == v1_entries(self@.dir) && a@.data == self@.img,
                Err(e) => e == ReadError::UnexpectedEof,
            },
    {
        if self.dir.len() % 32 != 0 {
            return Err(ReadError::UnexpectedEof);
        }
        let dir_len = self.dir.len();
        let n = dir_len / 32;
        let ghost dirv = self.dir@;
        let mut entries: Vec<Entry> = Vec::new();
        let mut i: usize = 0;
        while i < n
            invariant
                0 <= i <= n,
                n == dirv.len() / 32,
                dirv.len() % 32 == 0,
                dirv.len() <= usize::MAX,
                dirv == self.dir@,
                entries_view(entries@) == v1_entries(dirv).take(i as int),
                forall|j: int|
                    0 <= j < entries@.len() ==> (#[trigger] entries@[j]).off <= u32::MAX
                        && entries@[j].len <= u32::MAX,
            decreases n - i,
        {
            proof {
                assert(32 * (i as int) + 32 <= dirv.len()) by (nonlinear_arith)
                    requires
                        0 <= i < n,
                        n == dirv.len() / 32,
                        dirv.len() % 32 == 0,
                ;
            }
            let base = i * 32;
            let off = read_u32_at(&self.dir, base) as u64;
            let len = read_u32_at(&self.dir, base + 4) as u64;
            let name = read_name_at(&self.dir, base + 8);
            let entry = Entry { name, off, len };
            proof {
                assert(entry@ == v1_entry_at(dirv, i as int));
            }
            let ghost prev = entries@;
            entries.push(entry);
            i = i + 1;
            proof {
                let ghost cur = prev.push(entry);
                assert(entries@ == cur);
                assert(entries_view(prev).len() == prev.len());
                assert(v1_entries(dirv).take(i as int - 1).len() == i as int - 1);
                assert(prev.len() == i as int - 1);
                assert forall|j: int| 0 <= j < cur.len() implies entries_view(cur)[j]
                    == v1_entries(dirv).take(i as int)[j] by {
                    assert(v1_entries(dirv).take(i as int)[j] == v1_entries(dirv)[j]);
                    if j < i as int - 1 {
                        assert(cur[j] == prev[j]);
                        assert(entries_view(prev)[j] == prev[j]@);
                        assert(entries_view(prev)[j] == v1_entries(dirv).take(i as int - 1)[j]);
                        assert(v1_entries(dirv).take(i as int - 1)[j] == v1_entries(dirv)[j]);
                    } else {
                        assert(cur[j] == entry);
                    }
                }
                assert(entries_view(cur) =~= v1_entries(dirv).take(i as int));
            }
        }
        proof {
            assert(v1_entries(dirv).take(n as int) =~= v1_entries(dirv));
        }
        Ok(Archive { entries, data: self.img })
    }
}

impl Reader for V2Reader {
    /// Parses the combined buffer: checks the magic, reads the declared
    /// entry count and parses that many 32-byte table records.  Fails with
    /// an invalid-header error on a magic mismatch and with an
    /// end-of-stream error when the header or table is cut short; the
    /// archive's entries then index into the same combined buffer.
    fn read(self) -> (r: Result<Archive, ReadError>)
        ensures
            r is Ok <==> v2_ok(self@),
            match r {
                Ok(a) => a@.entries == v2_entries(self@) && a@.data == self@,
                Err(e) => e == if self@.len() >= 4 && !v2_has_magic(self@) {
                    ReadError::InvalidHeader
                } else {
                    ReadError::UnexpectedEof
                },
            },
    {
        let ghost imgv = self.img@;
        if self.img.len() < 4 {
            return Err(ReadError::UnexpectedEof);
        }
        if self.img[0] != 0x56 || self.img[1] != 0x45 || self.img[2] != 0x52 || self.img[3] != 0x32 {
            proof {
                assert(imgv.subrange(0, 4) != v2_magic());
            }
            return Err(ReadError::InvalidHeader);
        }
        proof {
            assert(imgv.subrange(0, 4) =~= v2_magic());
        }
        if self.img.len() < 8 {
            return Err(ReadError::UnexpectedEof);
        }
        let count = read_u32_at(&self.img, 4);
        let need: u64 = 8 + 32 * (count as u64);
        if need > self.img.len() as u64 {
            return Err(ReadError::UnexpectedEof);
        }
        let n = count as usize;
        let mut entries: Vec<Entry> = Vec::new();
        let mut i: usize = 0;
        while i < n
            invariant
                0 <= i <= n,
                n == v2_count(imgv),
                8 + 32 * n <= imgv.len(),
                imgv.len() <= usize::MAX,
                imgv == self.img@,
                entries_view(entries@) == v2_entries(imgv).take(i as int),
                forall|j: int|
                    0 <= j < entries@.len() ==> (#[trigger] entries@[j]).off <= u32::MAX
                        && entries@[j].len <= u32::MAX,
            decreases n - i,
        {
            let base = 8 + i * 32;
            let off = read_u32_at(&self.img, base) as u64;
            let len = read_u16_at(&self.img, base + 4) as u64;
            let name = read_name_at(&self.img, base + 8);
            let entry = Entry { name, off, len };
            proof {
                assert(entry@ == v2_entry_at(imgv, i as int));
            }
            let ghost prev = entries@;
            entries.push(entry);
            i = i + 1;
            proof {
                let ghost cur = prev.push(entry);
                assert(entries@ == cur);
                assert(entries_view(prev).len() == prev.len());
                assert(v2_entries(imgv).take(i as int - 1).len() == i as int - 1);
                assert(prev.len() == i as int - 1);
                assert forall|j: int| 0 <= j < cur.len() implies entries_view(cur)[j]
                    == v2_entries(imgv).take(i as int)[j] by {
                    assert(v2_entries(imgv).take(i as int)[j] == v2_entries(imgv)[j]);
                    if j < i as int - 1 {
                        assert(cur[j] == prev[j]);
                        assert(entries_view(prev)[j] == prev[j]@);
                        assert(entries_view(prev)[j] == v2_entries(imgv).take(i as int - 1)[j]);
                        assert(v2_entries(imgv).take(i as int - 1)[j] == v2_entries(imgv)[j]);
                    } else {
                        assert(cur[j] == entry);
                    }
                }
                assert(entries_view(cur) =~= v2_entries(imgv).take(i as int));
            }
        }
        proof {
            assert(v2_entries(imgv).take(n as int) =~= v2_entries(imgv));
        }
        Ok(Archive { entries, data: self.img })
    }
}

} // verus!
