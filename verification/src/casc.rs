//! The local blob store: the shared-memory descriptor, the per-bucket hash
//! index files, the store that merges them, and the validation of a stored
//! record against its entry and the two record checksums.

use vstd::prelude::*;
use crate::bytes::be_val;
use crate::bytes::byte_at;
use crate::bytes::first_nul;
use crate::bytes::lemma_first_nul;
use crate::bytes::read_u16_le;
use crate::bytes::read_u32_le;
use crate::bytes::read_u64_le;
use crate::bytes::le_val;
use crate::bytes::lemma_be_val_bound;
use crate::bytes::lemma_le_val_bound;
use crate::bytes::lemma_pow256_le;
use crate::bytes::lemma_pow256_words;
use crate::bytes::lemma_slice_len;
use crate::bytes::pow256;
use crate::bytes::read_uint_be;
use crate::bytes::read_uint_le;
use vstd::slice::slice_subrange;
use vstd::slice::slice_to_vec;

verus! {

/// Why a store structure was rejected: the bytes are not the expected format
/// at all, a checksum or declared length does not match the data, or a key
/// has no entry.
#[derive(Clone, Copy, PartialEq, Eq, Structural, Debug)]
pub enum CascError {
    Unsupported,
    IntegrityError,
    EntryNotFound,
}

/// One index entry: a key prefix and the file, byte offset and length of the
/// record it points at.
#[derive(Clone, Debug)]
pub struct Entry {
    pub key: Vec<u8>,
    pub file: u64,
    pub offset: u64,
    pub length: u64,
}

/// The mathematical value of an [`Entry`].
#[verifier::ext_equal]
pub struct EntryModel {
    pub key: Seq<u8>,
    pub file: u64,
    pub offset: u64,
    pub length: u64,
}

/// The views of a sequence of entries.
pub open spec fn entry_views(s: Seq<Entry>) -> Seq<EntryModel> {
    s.map_values(|e: Entry| e@)
}

impl View for Entry {
    type V = EntryModel;

    open spec fn view(&self) -> EntryModel {
        EntryModel { key: self.key@, file: self.file, offset: self.offset, length: self.length }
    }
}

/// The number of bytes that hold the packed `(file, offset)` location for a
/// given segment-bit split.
pub open spec fn spec_offset_size(segment_bits: u8) -> int {
    (segment_bits + 7) / 8
}

/// The bits of the offset field that belong to the file id.
pub open spec fn spec_extra_bits(segment_bits: u8) -> int {
    spec_offset_size(segment_bits) * 8 - segment_bits
}

/// The file id recovered from the two raw big-endian location fields: the
/// file field carries the high bits, and the top `extra_bits` of the offset
/// field carry the low bits.
pub open spec fn unpacked_file(file_raw: u64, off_raw: u64, segment_bits: u8, extra_bits: u8) -> u64 {
    (file_raw << (extra_bits as u64)) | (off_raw >> (segment_bits as u64))
}

/// The byte offset recovered from the raw offset field: its low
/// `segment_bits` bits; the bits above them belong to the file id.
pub open spec fn unpacked_offset(off_raw: u64, segment_bits: u8) -> u64
    recommends
        segment_bits < 64,
{
    off_raw & (((1u64 << (segment_bits as u64)) - 1) as u64)
}

/// The widths a packed entry can be decoded under without leaving `u64`
/// arithmetic: each field fits a machine word and the offset field fits
/// inside the location field.
pub open spec fn entry_widths_ok(length_size: u8, location_size: u8, segment_bits: u8) -> bool {
    &&& length_size <= 8
    &&& location_size <= 8
    &&& segment_bits < 64
    &&& spec_offset_size(segment_bits) <= location_size
}

/// The entry denoted by the packed record at `pos`.
pub open spec fn spec_entry(
    d: Seq<u8>,
    pos: int,
    length_size: u8,
    location_size: u8,
    key_size: u8,
    segment_bits: u8,
) -> EntryModel {
    let osize = spec_offset_size(segment_bits);
    let fsize = location_size - osize;
    let file_raw = be_val(d, pos + key_size, fsize) as u64;
    let off_raw = be_val(d, pos + key_size + fsize, osize) as u64;
    let extra = spec_extra_bits(segment_bits) as u8;
    EntryModel {
        key: d.subrange(pos, pos + key_size),
        file: unpacked_file(file_raw, off_raw, segment_bits, extra),
        offset: unpacked_offset(off_raw, segment_bits),
        length: le_val(d, pos + key_size + location_size, length_size as int) as u64,
    }
}

/// The number of bytes one packed entry occupies.
pub open spec fn spec_entry_width(length_size: u8, location_size: u8, key_size: u8) -> int {
    key_size + location_size + length_size
}

impl Entry {
    /// Decode one packed entry at `pos`; returns the entry and the position
    /// just past it.
    pub fn read_from(
        d: &[u8],
        pos: usize,
        length_size: u8,
        location_size: u8,
        key_size: u8,
        segment_bits: u8,
    ) -> (r: (Entry, usize))
        requires
            entry_widths_ok(length_size, location_size, segment_bits),
            pos + spec_entry_width(length_size, location_size, key_size) <= d@.len(),
        ensures
            r.0@ == spec_entry(d@, pos as int, length_size, location_size, key_size, segment_bits),
            r.1 == pos + spec_entry_width(length_size, location_size, key_size),
    {
        proof {
            lemma_slice_len(d);
        }
        let ks = key_size as usize;
        let key = slice_to_vec(slice_subrange(d, pos, pos + ks));
        let offset_size = (segment_bits + 7) / 8;
        let file_size = location_size - offset_size;
        let file_raw = read_uint_be(d, pos + ks, file_size as usize);
        let off_raw = read_uint_be(d, pos + ks + file_size as usize, offset_size as usize);
        let extra_bits = offset_size * 8 - segment_bits;
        let file = (file_raw << extra_bits) | (off_raw >> segment_bits);
        proof {
            let s64 = segment_bits as u64;
            assert(1u64 << s64 >= 1) by (bit_vector)
                requires
                    s64 < 64,
            ;
        }
        let offset = off_raw & ((1u64 << segment_bits as u64) - 1);
        let length = read_uint_le(
            d,
            pos + ks + location_size as usize,
            length_size as usize,
        );
        proof {
            lemma_be_val_bound(d@, pos + key_size, file_size as int);
            lemma_be_val_bound(d@, pos + key_size + file_size, offset_size as int);
            lemma_le_val_bound(d@, pos + key_size + location_size, length_size as int);
            lemma_pow256_le(file_size as int, 8);
            lemma_pow256_le(offset_size as int, 8);
            lemma_pow256_le(length_size as int, 8);
            lemma_pow256_words();
            assert(pow256(8) == 0x1_0000_0000_0000_0000) by {
                reveal_with_fuel(pow256, 9);
            }
        }
        (
            Entry { key, file, offset, length },
            pos + ks + location_size as usize + length_size as usize,
        )
    }
}

/// Packing an entry's `(file, offset)` into the two raw location fields and
/// decoding them again is the identity, for every pair within the declared
/// widths, under every segment split: `file_raw` and `off_raw` are the two
/// big-endian fields as an encoder writes them, the file bits above the
/// offset field and the low `8 * offset_size` bits of the packed word; when
/// the offset field spans all eight bytes the file field is empty.
pub proof fn lemma_location_round_trip(file: u64, offset: u64, segment_bits: u8)
    requires
        1 <= segment_bits < 64,
        offset < (1u64 << (segment_bits as u64)),
        file < (1u64 << ((64 - segment_bits) as u64)),
    ensures
        ({
            let m = spec_offset_size(segment_bits);
            let extra = spec_extra_bits(segment_bits) as u8;
            let packed = (file << (segment_bits as u64)) | offset;
            let file_raw = if m == 8 {
                0u64
            } else {
                packed >> ((8 * m) as u64)
            };
            let off_raw = if m == 8 {
                packed
            } else {
                packed & (((1u64 << ((8 * m) as u64)) - 1) as u64)
            };
            unpacked_file(file_raw, off_raw, segment_bits, extra) == file
                && unpacked_offset(off_raw, segment_bits) == offset
        }),
{
    let s64 = segment_bits as u64;
    let m64 = spec_offset_size(segment_bits) as u64;
    let e64 = spec_extra_bits(segment_bits) as u64;
    let sh_inv: u64 = (64 - s64) as u64;
    assert(1 <= s64 <= 63 && 1 <= m64 <= 8 && e64 <= 7 && s64 + sh_inv == 64);
    let extra = spec_extra_bits(segment_bits) as u8;
    assert(extra as u64 == e64);
    let packed = (file << s64) | offset;
    assert(1u64 << s64 >= 1) by (bit_vector)
        requires
            s64 <= 63,
    ;
    assert((((1u64 << s64) - 1) as u64) == (1u64 << s64).wrapping_sub(1));
    if m64 == 8 {
        assert(s64 + e64 == 64);
        assert(((0u64 << e64) | (packed >> s64)) == file && (packed & (1u64
            << s64).wrapping_sub(1)) == offset) by (bit_vector)
            requires
                57 <= s64 <= 63,
                s64 + e64 == 64,
                offset < (1u64 << s64),
                file < (1u64 << sh_inv),
                s64 + sh_inv == 64,
                packed == (file << s64) | offset,
        ;
    } else {
        let sh_m: u64 = (8 * m64) as u64;
        assert(s64 + e64 == sh_m && sh_m <= 56);
        let off_raw = packed & (1u64 << sh_m).wrapping_sub(1);
        let file_raw = packed >> sh_m;
        assert(((file_raw << e64) | (off_raw >> s64)) == file && (off_raw & (1u64
            << s64).wrapping_sub(1)) == offset) by (bit_vector)
            requires
                1 <= s64 <= 56,
                e64 <= 7,
                s64 + e64 == sh_m,
                sh_m <= 56,
                offset < (1u64 << s64),
                file < (1u64 << sh_inv),
                s64 + sh_inv == 64,
                packed == (file << s64) | offset,
                off_raw == packed & (1u64 << sh_m).wrapping_sub(1),
                file_raw == packed >> sh_m,
        ;
        assert(1u64 << sh_m >= 1) by (bit_vector)
            requires
                sh_m <= 56,
        ;
        assert((((1u64 << sh_m) - 1) as u64) == (1u64 << sh_m).wrapping_sub(1));
    }
}

/// The store's root descriptor: the data directory path, one version per
/// bucket, and the free-space table. The path is kept as the raw bytes up to
/// the field's first NUL — the descriptor gives no encoding for it, so
/// decoding the bytes to text is left to the caller that opens files by it.
#[derive(Debug)]
pub struct SharedMemory {
    pub data_path: Vec<u8>,
    pub versions: Vec<u32>,
    pub free_spaces: Vec<Entry>,
}

/// The mathematical value of a [`SharedMemory`].
#[verifier::ext_equal]
pub struct SharedMemoryModel {
    pub data_path: Seq<u8>,
    pub versions: Seq<u32>,
    pub free_spaces: Seq<EntryModel>,
}

impl View for SharedMemory {
    type V = SharedMemoryModel;

    open spec fn view(&self) -> SharedMemoryModel {
        SharedMemoryModel {
            data_path: self.data_path@,
            versions: self.versions@,
            free_spaces: entry_views(self.free_spaces@),
        }
    }
}

/// Where the bucket versions start: past the fixed head, the path field and
/// the filler block that the declared header size spans.
pub open spec fn shmem_vpos(b: Seq<u8>) -> int {
    264 + 8 * ((le_val(b, 4, 4) - 328) / 8)
}

/// The descriptor is well formed: both block tags match, the declared header
/// size covers the fixed fields, and every declared region lies within the
/// input.
pub open spec fn shmem_wf(b: Seq<u8>) -> bool {
    let vpos = shmem_vpos(b);
    &&& b.len() >= 8
    &&& le_val(b, 0, 4) == 4
    &&& le_val(b, 4, 4) >= 328
    &&& b.len() >= vpos + 72
    &&& le_val(b, vpos + 64, 4) == 1
    &&& le_val(b, vpos + 68, 4) <= 1090
    &&& b.len() >= vpos + 96 + 5450 + 5 * le_val(b, vpos + 68, 4)
}

/// A free-space entry after the first table only: the length is known, the
/// file and offset are not yet filled in.
pub open spec fn spec_free_space_partial(b: Seq<u8>, vpos: int, i: int) -> EntryModel {
    let first = spec_entry(b, vpos + 96 + 5 * i, 0, 5, 0, 30);
    EntryModel { key: Seq::empty(), file: 0, offset: 0, length: first.offset }
}

/// Free-space entries pack a 5-byte location under a 30-bit segment split;
/// the first table holds lengths (decoded into the offset field), the second
/// the file and offset.
pub open spec fn spec_free_space(b: Seq<u8>, vpos: int, i: int) -> EntryModel {
    let first = spec_entry(b, vpos + 96 + 5 * i, 0, 5, 0, 30);
    let second = spec_entry(b, vpos + 96 + 5450 + 5 * i, 0, 5, 0, 30);
    EntryModel { key: Seq::empty(), file: second.file, offset: second.offset, length: first.offset }
}

/// The descriptor denoted by a well-formed `b`.
pub open spec fn spec_shmem(b: Seq<u8>) -> SharedMemoryModel {
    let vpos = shmem_vpos(b);
    let path = b.subrange(8, 264);
    SharedMemoryModel {
        data_path: path.subrange(0, first_nul(path, 0)),
        versions: Seq::new(16, |i: int| le_val(b, vpos + 4 * i, 4) as u32),
        free_spaces: Seq::new(
            le_val(b, vpos + 68, 4) as nat,
            |i: int| spec_free_space(b, vpos, i),
        ),
    }
}

impl SharedMemory {
    /// Parse the store's root descriptor. Fails with `Unsupported` if either
    /// block tag is wrong or any declared region does not fit the input.
    pub fn read_from(d: &[u8]) -> (r: Result<SharedMemory, CascError>)
        ensures
            match r {
                Ok(sm) => shmem_wf(d@) && sm@ == spec_shmem(d@),
                Err(e) => !shmem_wf(d@) && e == CascError::Unsupported,
            },
    {
        proof {
            lemma_slice_len(d);
        }
        if d.len() < 8 {
            return Err(CascError::Unsupported);
        }
        if read_u32_le(d, 0) != 4 {
            return Err(CascError::Unsupported);
        }
        let header_size = read_u32_le(d, 4);
        if header_size < 328 {
            return Err(CascError::Unsupported);
        }
        let vpos64: u64 = 264 + 8 * (((header_size - 328) / 8) as u64);
        if (d.len() as u64) < vpos64 + 72 {
            return Err(CascError::Unsupported);
        }
        let vpos = vpos64 as usize;
        let path_region = slice_subrange(d, 8, 264);
        let mut path_len: usize = 0;
        while path_len < 256 && byte_at(path_region, path_len) != 0
            invariant
                path_len <= 256,
                path_region@.len() == 256,
                forall|j: int| 0 <= j < path_len ==> path_region@[j] != 0,
            decreases 256 - path_len,
        {
            path_len = path_len + 1;
        }
        proof {
            lemma_first_nul(path_region@, 0, path_len as int);
        }
        let data_path = slice_to_vec(slice_subrange(path_region, 0, path_len));
        let mut versions: Vec<u32> = Vec::new();
        let mut i: usize = 0;
        while i < 16
            invariant
                i <= 16,
                d@.len() <= usize::MAX,
                d@.len() >= vpos + 72,
                vpos == shmem_vpos(d@),
                versions@.len() == i,
                forall|j: int| 0 <= j < i ==> #[trigger] versions@[j] == le_val(
                    d@,
                    vpos + 4 * j,
                    4,
                ) as u32,
            decreases 16 - i,
        {
            versions.push(read_u32_le(d, vpos + 4 * i));
            i = i + 1;
        }
        if read_u32_le(d, vpos + 64) != 1 {
            return Err(CascError::Unsupported);
        }
        let count = read_u32_le(d, vpos + 68);
        if count > 1090 {
            return Err(CascError::Unsupported);
        }
        let countu = count as usize;
        if (d.len() as u64) < vpos64 + 96 + 5450 + 5 * (count as u64) {
            return Err(CascError::Unsupported);
        }
        let ghost gvpos = vpos as int;
        let mut free_spaces: Vec<Entry> = Vec::new();
        let mut i: usize = 0;
        while i < countu
            invariant
                i <= countu,
                d@.len() <= usize::MAX,
                vpos + 96 + 5450 + 5 * countu <= d@.len(),
                gvpos == vpos as int,
                free_spaces@.len() == i,
                forall|j: int| 0 <= j < i ==> (#[trigger] free_spaces@[j])@
                    == spec_free_space_partial(d@, gvpos, j),
            decreases countu - i,
    {
            let (first, _) = Entry::read_from(d, vpos + 96 + 5 * i, 0, 5, 0, 30);
            free_spaces.push(Entry { key: Vec::new(), file: 0, offset: 0, length: first.offset });
            i = i + 1;
        }
        let mut i: usize = 0;
        while i < countu
            invariant
                i <= countu,
                d@.len() <= usize::MAX,
                vpos + 96 + 5450 + 5 * countu <= d@.len(),
                gvpos == vpos as int,
                countu <= 1090,
                free_spaces@.len() == countu,
                forall|j: int| 0 <= j < i ==> (#[trigger] free_spaces@[j])@ == spec_free_space(
                    d@,
                    gvpos,
                    j,
                ),
                forall|j: int| i <= j < countu ==> (#[trigger] free_spaces@[j])@
                    == spec_free_space_partial(d@, gvpos, j),
            decreases countu - i,
        {
            let (second, _) = Entry::read_from(d, vpos + 96 + 5450 + 5 * i, 0, 5, 0, 30);
            let length = free_spaces[i].length;
            free_spaces.set(
                i,
                Entry { key: Vec::new(), file: second.file, offset: second.offset, length },
            );
            i = i + 1;
        }
        let sm = SharedMemory { data_path, versions, free_spaces };
        proof {
            assert(sm@.versions =~= spec_shmem(d@).versions);
            assert(sm@.free_spaces =~~= spec_shmem(d@).free_spaces);
            assert(sm@.data_path =~= spec_shmem(d@).data_path);
        }
        Ok(sm)
    }
}

/// One per-bucket index file: the header's field widths and a flat table of
/// packed entries, both guarded by the 32-bit block hash.
#[derive(Debug)]
pub struct Index {
    pub bucket: u16,
    pub entry_length_size: u8,
    pub entry_location_size: u8,
    pub entry_key_size: u8,
    pub entry_segment_bits: u8,
    pub limit: u64,
    pub entries: Vec<Entry>,
}

/// The mathematical value of an [`Index`].
#[verifier::ext_equal]
pub struct IndexModel {
    pub bucket: u16,
    pub entry_length_size: u8,
    pub entry_location_size: u8,
    pub entry_key_size: u8,
    pub entry_segment_bits: u8,
    pub limit: u64,
    pub entries: Seq<EntryModel>,
}

impl View for Index {
    type V = IndexModel;

    open spec fn view(&self) -> IndexModel {
        IndexModel {
            bucket: self.bucket,
            entry_length_size: self.entry_length_size,
            entry_location_size: self.entry_location_size,
            entry_key_size: self.entry_key_size,
            entry_segment_bits: self.entry_segment_bits,
            limit: self.limit,
            entries: entry_views(self.entries@),
        }
    }
}

pub open spec fn index_hlen(b: Seq<u8>) -> int {
    le_val(b, 0, 4)
}

/// The checksummed header block.
pub open spec fn index_header(b: Seq<u8>) -> Seq<u8> {
    b.subrange(8, 8 + index_hlen(b))
}

/// Where the entry-table length and hash stand: past the header block and the
/// eight filler bytes that follow it.
pub open spec fn index_epos(b: Seq<u8>) -> int {
    8 + index_hlen(b) + 8
}

pub open spec fn index_elen(b: Seq<u8>) -> int {
    le_val(b, index_epos(b), 4)
}

/// The checksummed entry-table block.
pub open spec fn index_entries_region(b: Seq<u8>) -> Seq<u8> {
    b.subrange(index_epos(b) + 8, index_epos(b) + 8 + index_elen(b))
}

/// Why an index file is rejected, or `None` if it parses: a stored hash that
/// does not match its block and an entry table that is not a whole number of
/// entries are integrity faults; anything structural is an unsupported
/// format.
pub open spec fn index_err(b: Seq<u8>) -> Option<CascError> {
    let h = index_header(b);
    let reg = index_entries_region(b);
    let width = spec_entry_width(h[4], h[5], h[6]);
    if b.len() < 8 || b.len() < 8 + index_hlen(b) {
        Some(CascError::Unsupported)
    } else if crate::hash::spec_hash32(h) != le_val(b, 4, 4) {
        Some(CascError::IntegrityError)
    } else if index_hlen(b) < 16 {
        Some(CascError::Unsupported)
    } else if le_val(h, 0, 2) != 7 {
        Some(CascError::Unsupported)
    } else if !(entry_widths_ok(h[4], h[5], h[7]) && width > 0) {
        Some(CascError::Unsupported)
    } else if b.len() < index_epos(b) + 8 || b.len() < index_epos(b) + 8 + index_elen(b) {
        Some(CascError::Unsupported)
    } else if crate::hash::spec_hash32(reg) != le_val(b, index_epos(b) + 4, 4) {
        Some(CascError::IntegrityError)
    } else if index_elen(b) % width != 0 {
        Some(CascError::IntegrityError)
    } else {
        None
    }
}

/// The index denoted by bytes that [`index_err`] accepts.
pub open spec fn spec_index(b: Seq<u8>) -> IndexModel {
    let h = index_header(b);
    let reg = index_entries_region(b);
    let width = spec_entry_width(h[4], h[5], h[6]);
    IndexModel {
        bucket: le_val(h, 2, 2) as u16,
        entry_length_size: h[4],
        entry_location_size: h[5],
        entry_key_size: h[6],
        entry_segment_bits: h[7],
        limit: le_val(h, 8, 8) as u64,
        entries: Seq::new(
            (index_elen(b) / width) as nat,
            |i: int| spec_entry(reg, i * width, h[4], h[5], h[6], h[7]),
        ),
    }
}

impl Index {
    /// Parse one index file. The header and the entry table must both match
    /// their stored block hash; the header must declare version 7 and field
    /// widths the decoder can hold in machine words; the entry table must be
    /// a whole number of entries.
    pub fn read_from(d: &[u8]) -> (r: Result<Index, CascError>)
        ensures
            match r {
                Ok(ix) => index_err(d@) is None && ix@ == spec_index(d@),
                Err(e) => index_err(d@) == Some(e),
            },
    {
        proof {
            lemma_slice_len(d);
        }
        let len64 = d.len() as u64;
        if d.len() < 8 {
            return Err(CascError::Unsupported);
        }
        let hlen = read_u32_le(d, 0);
        let hhash = read_u32_le(d, 4);
        if len64 < 8 + hlen as u64 {
            return Err(CascError::Unsupported);
        }
        let hlenu = hlen as usize;
        let header = slice_subrange(d, 8, 8 + hlenu);
        if crate::hash::hash32(header) != hhash {
            return Err(CascError::IntegrityError);
        }
        if hlen < 16 {
            return Err(CascError::Unsupported);
        }
        if read_u16_le(header, 0) != 7 {
            return Err(CascError::Unsupported);
        }
        let bucket = read_u16_le(header, 2);
        let entry_length_size = byte_at(header, 4);
        let entry_location_size = byte_at(header, 5);
        let entry_key_size = byte_at(header, 6);
        let entry_segment_bits = byte_at(header, 7);
        let limit = read_u64_le(header, 8);
        if !(entry_length_size <= 8 && entry_location_size <= 8 && entry_segment_bits < 64
            && (entry_segment_bits + 7) / 8 <= entry_location_size) {
            return Err(CascError::Unsupported);
        }
        let width = entry_length_size as usize + entry_location_size as usize
            + entry_key_size as usize;
        if width == 0 {
            return Err(CascError::Unsupported);
        }
        let epos64 = 8 + hlen as u64 + 8;
        if len64 < epos64 + 8 {
            return Err(CascError::Unsupported);
        }
        let epos = epos64 as usize;
        let elen = read_u32_le(d, epos);
        let ehash = read_u32_le(d, epos + 4);
        if len64 < epos64 + 8 + elen as u64 {
            return Err(CascError::Unsupported);
        }
        let elenu = elen as usize;
        let region = slice_subrange(d, epos + 8, epos + 8 + elenu);
        if crate::hash::hash32(region) != ehash {
            return Err(CascError::IntegrityError);
        }
        if elenu % width != 0 {
            return Err(CascError::IntegrityError);
        }
        let count = elenu / width;
        let mut entries: Vec<Entry> = Vec::new();
        let mut i: usize = 0;
        while i < count
            invariant
                i <= count,
                0 < width,
                region@.len() == elenu,
                count == elenu as int / width as int,
                elenu as int % width as int == 0,
                width == spec_entry_width(entry_length_size, entry_location_size, entry_key_size),
                entry_widths_ok(entry_length_size, entry_location_size, entry_segment_bits),
                entries@.len() == i,
                forall|j: int| 0 <= j < i ==> (#[trigger] entries@[j])@ == spec_entry(
                    region@,
                    j * width,
                    entry_length_size,
                    entry_location_size,
                    entry_key_size,
                    entry_segment_bits,
                ),
            decreases count - i,
        {
            proof {
                vstd::arithmetic::mul::lemma_mul_inequality(i + 1, count as int, width as int);
                vstd::arithmetic::div_mod::lemma_fundamental_div_mod(elenu as int, width as int);
                assert((i + 1) * width == i * width + width) by (nonlinear_arith);
            }
            let (e, _) = Entry::read_from(
                region,
                i * width,
                entry_length_size,
                entry_location_size,
                entry_key_size,
                entry_segment_bits,
            );
            entries.push(e);
            i = i + 1;
        }
        let ix = Index {
            bucket,
            entry_length_size,
            entry_location_size,
            entry_key_size,
            entry_segment_bits,
            limit,
            entries,
        };
        proof {
            assert(ix@.entries =~~= spec_index(d@).entries);
        }
        Ok(ix)
    }
}

/// The store: every bucket index's entries merged into one table, in the
/// order the indices were given; a later entry with the same key prefix wins.
#[derive(Debug)]
pub struct Casc {
    pub entries: Vec<Entry>,
}

impl View for Casc {
    type V = Seq<EntryModel>;

    open spec fn view(&self) -> Seq<EntryModel> {
        entry_views(self.entries@)
    }
}

/// The views of a sequence of indices.
pub open spec fn index_views(s: Seq<Index>) -> Seq<IndexModel> {
    s.map_values(|ix: Index| ix@)
}

/// All the indices' entries, in index order.
pub open spec fn cat_entries(ixs: Seq<IndexModel>) -> Seq<EntryModel>
    decreases ixs.len(),
{
    if ixs.len() == 0 {
        Seq::empty()
    } else {
        cat_entries(ixs.drop_last()) + ixs.last().entries
    }
}

proof fn lemma_cat_entries_first(ixs: Seq<IndexModel>)
    requires
        ixs.len() > 0,
    ensures
        cat_entries(ixs) == ixs[0].entries + cat_entries(ixs.subrange(1, ixs.len() as int)),
    decreases ixs.len(),
{
    if ixs.len() == 1 {
        assert(ixs.drop_last() =~= Seq::<IndexModel>::empty());
        assert(ixs.subrange(1, 1) =~= Seq::<IndexModel>::empty());
        assert(cat_entries(ixs) =~= ixs[0].entries + cat_entries(ixs.subrange(1, 1)));
    } else {
        let tail = ixs.subrange(1, ixs.len() as int);
        lemma_cat_entries_first(ixs.drop_last());
        assert(ixs.drop_last().subrange(1, ixs.len() - 1) =~= tail.drop_last());
        assert(ixs.drop_last()[0] == ixs[0]);
        assert(tail.last() == ixs.last());
        assert(cat_entries(ixs) == cat_entries(ixs.drop_last()) + ixs.last().entries);
        assert(cat_entries(tail) == cat_entries(tail.drop_last()) + tail.last().entries);
        assert(ixs[0].entries + cat_entries(tail) =~= (ixs[0].entries + cat_entries(
            tail.drop_last(),
        )) + ixs.last().entries);
    }
}

/// The entry a key resolves to: the key's 9-byte prefix is looked up in the
/// merged table, and the entry inserted last wins.
pub open spec fn lookup(entries: Seq<EntryModel>, prefix: Seq<u8>) -> Option<EntryModel>
    decreases entries.len(),
{
    if entries.len() == 0 {
        None
    } else if entries.last().key == prefix {
        Some(entries.last())
    } else {
        lookup(entries.drop_last(), prefix)
    }
}

/// The first `n` bytes of two slices compared for equality.
fn prefix_eq(a: &[u8], b: &[u8], n: usize) -> (r: bool)
    requires
        n <= a@.len(),
        n <= b@.len(),
    ensures
        r == (a@.subrange(0, n as int) == b@.subrange(0, n as int)),
{
    let mut i: usize = 0;
    while i < n
        invariant
            i <= n,
            n <= a@.len(),
            n <= b@.len(),
            forall|j: int| 0 <= j < i ==> a@[j] == b@[j],
        decreases n - i,
    {
        if byte_at(a, i) != byte_at(b, i) {
            proof {
                assert(a@.subrange(0, n as int)[i as int] != b@.subrange(0, n as int)[i as int]);
            }
            return false;
        }
        i = i + 1;
    }
    proof {
        assert(a@.subrange(0, n as int) =~= b@.subrange(0, n as int));
    }
    true
}

impl Casc {
    /// Merge the given bucket indices into one store; their entries keep
    /// index order, so an entry from a later index shadows an earlier one
    /// with the same key.
    pub fn from_indices(indices: Vec<Index>) -> (c: Casc)
        ensures
            c@ == cat_entries(index_views(indices@)),
    {
        let ghost all = index_views(indices@);
        let mut rest = indices;
        let mut entries: Vec<Entry> = Vec::new();
        proof {
            assert(entry_views(entries@) =~= Seq::<EntryModel>::empty());
            assert(Seq::<EntryModel>::empty() + cat_entries(all) =~= cat_entries(all));
        }
        while rest.len() > 0
            invariant
                cat_entries(all) == entry_views(entries@) + cat_entries(index_views(rest@)),
            decreases rest@.len(),
        {
            let ghost rest_models = index_views(rest@);
            let mut ix = rest.remove(0);
            proof {
                lemma_cat_entries_first(rest_models);
                assert(index_views(rest@) =~= rest_models.subrange(1, rest_models.len() as int));
                assert(ix@ == rest_models[0]);
            }
            let ghost before = entries@;
            entries.append(&mut ix.entries);
            proof {
                assert(entry_views(entries@) =~= entry_views(before) + rest_models[0].entries);
                assert(entry_views(before) + (rest_models[0].entries + cat_entries(index_views(
                    rest@,
                ))) =~= entry_views(entries@) + cat_entries(index_views(rest@)));
            }
        }
        proof {
            assert(index_views(rest@) =~= Seq::<IndexModel>::empty());
            assert(entry_views(entries@) + cat_entries(Seq::<IndexModel>::empty()) =~= entry_views(
                entries@,
            ));
        }
        Casc { entries }
    }

    /// Look a key up by its 9-byte prefix. Fails with `EntryNotFound` if no
    /// entry's key equals the prefix; among several, the one inserted last is
    /// returned.
    pub fn find(&self, key: &[u8]) -> (r: Result<&Entry, CascError>)
        requires
            key@.len() >= 9,
        ensures
            match r {
                Ok(e) => lookup(self@, key@.subrange(0, 9)) == Some(e@),
                Err(e) => lookup(self@, key@.subrange(0, 9)) is None && e
                    == CascError::EntryNotFound,
            },
    {
        let ghost prefix = key@.subrange(0, 9);
        let mut i: usize = self.entries.len();
        proof {
            assert(self@.take(i as int) =~= self@);
        }
        while i > 0
            invariant
                i <= self.entries@.len(),
                key@.len() >= 9,
                lookup(self@, prefix) == lookup(self@.take(i as int), prefix),
                prefix == key@.subrange(0, 9),
            decreases i,
        {
            i = i - 1;
            let e = &self.entries[i];
            proof {
                assert(self@[i as int] == self.entries@[i as int]@);
                assert(self@.take(i + 1).drop_last() =~= self@.take(i as int));
                assert(self@.take(i + 1).last() == self@[i as int]);
            }
            if e.key.len() == 9 {
                proof {
                    assert(e.key@.subrange(0, 9) =~= e.key@);
                }
                if prefix_eq(e.key.as_slice(), key, 9) {
                    proof {
                        assert(self@[i as int].key == prefix);
                    }
                    return Ok(e);
                }
            }
            proof {
                assert(self@[i as int].key != prefix);
            }
        }
        proof {
            assert(self@.take(0) =~= Seq::<EntryModel>::empty());
        }
        Err(CascError::EntryNotFound)
    }
}

/// The absolute 32-bit position key of a record: the low 30 bits of its
/// offset under the low two bits of its file id.
pub open spec fn spec_off32(e: EntryModel) -> u32 {
    ((e.offset & 0x3FFFFFFF) as u32) | (((e.file & 3) as u32) << 30u32)
}

/// A stored record matches its index entry: it holds the full 30-byte head,
/// sits far enough from the end of the 30-bit offset window that its checksum
/// positions do not wrap, declares the entry's length, and both stored
/// checksums equal the ones computed over its bytes.
pub open spec fn record_valid(e: EntryModel, d: Seq<u8>) -> bool {
    &&& d.len() >= 30
    &&& (e.offset & 0x3FFFFFFF) <= 0x3FFFFFFF - 30
    &&& le_val(d, 16, 4) == e.length as u32
    &&& le_val(d, 22, 4) == crate::hash::spec_hash32_seeded(d.subrange(0, 22), 0x3D6BE971)
    &&& le_val(d, 26, 4) == crate::hash::spec_record_checksum(d.subrange(0, 26), spec_off32(e))
}

/// Once a record's head is present, its declared length matches, its offset
/// window holds and the stored first checksum equals the seeded block hash of
/// the head, validity turns on the second, position-keyed checksum alone.
pub proof fn lemma_record_gates(e: EntryModel, d: Seq<u8>)
    requires
        d.len() >= 30,
        (e.offset & 0x3FFFFFFF) <= 0x3FFFFFFF - 30,
        le_val(d, 16, 4) == e.length as u32,
        le_val(d, 22, 4) == crate::hash::spec_hash32_seeded(d.subrange(0, 22), 0x3D6BE971),
    ensures
        record_valid(e, d) <==> le_val(d, 26, 4) == crate::hash::spec_record_checksum(
            d.subrange(0, 26),
            spec_off32(e),
        ),
{
}

impl Entry {
    /// Validate the record bytes this entry points at: `data` is what lies at
    /// the entry's offset in its data file. Any mismatch is an integrity
    /// fault; on success the record's payload begins at byte 30.
    pub fn read(&self, data: &[u8]) -> (r: Result<(), CascError>)
        ensures
            match r {
                Ok(_) => record_valid(self@, data@),
                Err(e) => !record_valid(self@, data@) && e == CascError::IntegrityError,
            },
    {
        proof {
            lemma_slice_len(data);
        }
        if data.len() < 30 {
            return Err(CascError::IntegrityError);
        }
        let x = self.offset & 0x3FFFFFFF;
        let f = self.file & 3;
        proof {
            let o = self.offset;
            let g = self.file;
            assert(o & 0x3FFFFFFF < 0x40000000) by (bit_vector);
            assert(g & 3 < 4) by (bit_vector);
        }
        if x > 0x3FFFFFFF - 30 {
            return Err(CascError::IntegrityError);
        }
        let fbits = f as u32;
        let off32 = (x as u32) | (fbits << 30);
        if read_u32_le(data, 16) != self.length as u32 {
            return Err(CascError::IntegrityError);
        }
        let head = slice_subrange(data, 0, 22);
        if crate::hash::hash32_with_seed(head, 0x3D6BE971) != read_u32_le(data, 22) {
            return Err(CascError::IntegrityError);
        }
        let prefix = slice_subrange(data, 0, 26);
        proof {
            let x32 = x as u32;
            assert(x32 | (fbits << 30u32) <= 0xFFFFFFFFu32 - 30) by (bit_vector)
                requires
                    x32 <= 0x3FFFFFFFu32 - 30,
                    fbits < 4,
            ;
        }
        if crate::hash::record_checksum(prefix, off32) != read_u32_le(data, 26) {
            return Err(CascError::IntegrityError);
        }
        Ok(())
    }
}

} // verus!
