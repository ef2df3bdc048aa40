//! The paged encoding table of the build-versioning layer: it maps a content
//! key to the encoding keys it is stored under, and an encoding key to its
//! compression-spec string and encoded size. Each page is MD5-checked against
//! its descriptor before any record read from it is trusted, and a page is
//! scanned linearly until a record fails to parse; in the content-key table a
//! record that declares no encoding keys ends its page, so the zero padding
//! at a page's tail is never taken for data. The header's version byte must
//! be 1 and its pad byte zero: both gates come from the strictest variant of
//! this format's readers, adopted here over the lax one that ignored them.

use vstd::prelude::*;
use crate::bytes::be_val;
use crate::bytes::byte_at;
use crate::bytes::first_nul;
use crate::bytes::lemma_first_nul;
use crate::bytes::lemma_first_nul_range;
use crate::bytes::lemma_be_val_bound;
use crate::bytes::lemma_pow256_le;
use crate::bytes::lemma_pow256_words;
use crate::bytes::lemma_slice_len;
use crate::bytes::read_u32_be;
use crate::bytes::read_u16_be;
use crate::bytes::read_uint_be;
use crate::bytes::slices_eq;
use crate::crypto::md5_digest;
use crate::crypto::md5_of;
use vstd::slice::slice_subrange;
use vstd::slice::slice_to_vec;

verus! {

/// Why the table was rejected, or a key was not resolved: the bytes are not
/// an encoding table, a page fails its MD5, or a key has no record.
#[derive(Clone, Copy, PartialEq, Eq, Structural, Debug)]
pub enum TactError {
    Unsupported,
    IntegrityError,
    EntryNotFound,
}

/// The build-metadata row that names the build configuration: its key, as 16
/// raw bytes.
#[derive(Clone, Debug)]
pub struct BuildInfo {
    pub build_key: [u8; 16],
}

/// One row of the root file list: a named asset and the content key of its
/// data.
#[derive(Clone, Debug)]
pub struct RootFile {
    pub file_id: String,
    pub md5: [u8; 16],
    pub chunk_id: u8,
    pub priority: u8,
    pub mpriority: u8,
    pub file_name: String,
    pub install_path: String,
}

/// One record of the content-key table: a content key, its content size, and
/// the encoding keys it is stored under, the first of which is canonical.
#[derive(Debug)]
pub struct CToEKey {
    pub c_key: Vec<u8>,
    pub e_keys: Vec<Vec<u8>>,
    pub c_size: u64,
}

/// The mathematical value of a [`CToEKey`].
#[verifier::ext_equal]
pub struct CToEKeyModel {
    pub c_key: Seq<u8>,
    pub e_keys: Seq<Seq<u8>>,
    pub c_size: u64,
}

impl View for CToEKey {
    type V = CToEKeyModel;

    open spec fn view(&self) -> CToEKeyModel {
        CToEKeyModel {
            c_key: self.c_key@,
            e_keys: self.e_keys@.map_values(|k: Vec<u8>| k@),
            c_size: self.c_size,
        }
    }
}

/// One MD5-guarded page of the content-key table.
#[derive(Debug)]
pub struct CToEKeyPage {
    pub first_c_key: Vec<u8>,
    pub md5: Vec<u8>,
    pub c_to_e_keys: Vec<CToEKey>,
}

/// The mathematical value of a [`CToEKeyPage`].
#[verifier::ext_equal]
pub struct CToEKeyPageModel {
    pub first_c_key: Seq<u8>,
    pub md5: Seq<u8>,
    pub c_to_e_keys: Seq<CToEKeyModel>,
}

impl View for CToEKeyPage {
    type V = CToEKeyPageModel;

    open spec fn view(&self) -> CToEKeyPageModel {
        CToEKeyPageModel {
            first_c_key: self.first_c_key@,
            md5: self.md5@,
            c_to_e_keys: self.c_to_e_keys@.map_values(|r: CToEKey| r@),
        }
    }
}

/// One record of the encoding-key table: an encoding key, the bytes of its
/// compression-spec string, and its encoded size.
#[derive(Debug)]
pub struct EKeySpec {
    pub e_key: Vec<u8>,
    pub e_spec: Vec<u8>,
    pub e_size: u64,
}

/// The mathematical value of an [`EKeySpec`].
#[verifier::ext_equal]
pub struct EKeySpecModel {
    pub e_key: Seq<u8>,
    pub e_spec: Seq<u8>,
    pub e_size: u64,
}

impl View for EKeySpec {
    type V = EKeySpecModel;

    open spec fn view(&self) -> EKeySpecModel {
        EKeySpecModel { e_key: self.e_key@, e_spec: self.e_spec@, e_size: self.e_size }
    }
}

/// One MD5-guarded page of the encoding-key table.
#[derive(Debug)]
pub struct EKeySpecPage {
    pub first_e_key: Vec<u8>,
    pub md5: Vec<u8>,
    pub e_key_specs: Vec<EKeySpec>,
}

/// The mathematical value of an [`EKeySpecPage`].
#[verifier::ext_equal]
pub struct EKeySpecPageModel {
    pub first_e_key: Seq<u8>,
    pub md5: Seq<u8>,
    pub e_key_specs: Seq<EKeySpecModel>,
}

impl View for EKeySpecPage {
    type V = EKeySpecPageModel;

    open spec fn view(&self) -> EKeySpecPageModel {
        EKeySpecPageModel {
            first_e_key: self.first_e_key@,
            md5: self.md5@,
            e_key_specs: self.e_key_specs@.map_values(|r: EKeySpec| r@),
        }
    }
}

/// The whole table: both page tables, in file order.
#[derive(Debug)]
pub struct Encoding {
    pub c_to_e_key_page_table: Vec<CToEKeyPage>,
    pub e_key_spec_page_table: Vec<EKeySpecPage>,
}

/// The mathematical value of an [`Encoding`].
#[verifier::ext_equal]
pub struct EncodingModel {
    pub c_pages: Seq<CToEKeyPageModel>,
    pub e_pages: Seq<EKeySpecPageModel>,
}

impl View for Encoding {
    type V = EncodingModel;

    open spec fn view(&self) -> EncodingModel {
        EncodingModel {
            c_pages: self.c_to_e_key_page_table@.map_values(|p: CToEKeyPage| p@),
            e_pages: self.e_key_spec_page_table@.map_values(|p: EKeySpecPage| p@),
        }
    }
}

/// The NUL-terminated byte strings of `s` from `pos` on; a trailing segment
/// without a terminator is dropped.
pub open spec fn spec_strings(s: Seq<u8>, pos: int) -> Seq<Seq<u8>>
    recommends
        0 <= pos,
    decreases s.len() - pos,
    when 0 <= pos
    via spec_strings_dec
{
    if pos >= s.len() {
        Seq::empty()
    } else {
        let e = first_nul(s, pos);
        if e >= s.len() {
            Seq::empty()
        } else {
            seq![s.subrange(pos, e)] + spec_strings(s, e + 1)
        }
    }
}

#[via_fn]
proof fn spec_strings_dec(s: Seq<u8>, pos: int) {
    if 0 <= pos < s.len() {
        lemma_first_nul_range(s, pos);
    }
}

/// The header fields of the table.
pub open spec fn enc_c_key_size(b: Seq<u8>) -> int {
    b[3] as int
}

pub open spec fn enc_e_key_size(b: Seq<u8>) -> int {
    b[4] as int
}

/// Page sizes are declared in KiB.
pub open spec fn enc_c_page_size(b: Seq<u8>) -> int {
    be_val(b, 5, 2) * 1024
}

pub open spec fn enc_e_page_size(b: Seq<u8>) -> int {
    be_val(b, 7, 2) * 1024
}

pub open spec fn enc_c_page_count(b: Seq<u8>) -> int {
    be_val(b, 9, 4)
}

pub open spec fn enc_e_page_count(b: Seq<u8>) -> int {
    be_val(b, 13, 4)
}

pub open spec fn enc_spec_block_len(b: Seq<u8>) -> int {
    be_val(b, 18, 4)
}

/// Where each region of the table starts: the spec-string block, then the
/// content-key page descriptors, the content-key page bodies, the
/// encoding-key page descriptors, and the encoding-key page bodies.
pub open spec fn enc_cdesc_pos(b: Seq<u8>) -> int {
    22 + enc_spec_block_len(b)
}

pub open spec fn enc_cbody_pos(b: Seq<u8>) -> int {
    enc_cdesc_pos(b) + enc_c_page_count(b) * (enc_c_key_size(b) + 16)
}

pub open spec fn enc_edesc_pos(b: Seq<u8>) -> int {
    enc_cbody_pos(b) + enc_c_page_count(b) * enc_c_page_size(b)
}

pub open spec fn enc_ebody_pos(b: Seq<u8>) -> int {
    enc_edesc_pos(b) + enc_e_page_count(b) * (enc_e_key_size(b) + 16)
}

pub open spec fn enc_end(b: Seq<u8>) -> int {
    enc_ebody_pos(b) + enc_e_page_count(b) * enc_e_page_size(b)
}

pub open spec fn enc_magic_ok(b: Seq<u8>) -> bool {
    b.len() >= 22 && b[0] == 0x45u8 && b[1] == 0x4Eu8
}

pub open spec fn enc_c_desc_key(b: Seq<u8>, i: int) -> Seq<u8> {
    let p = enc_cdesc_pos(b) + i * (enc_c_key_size(b) + 16);
    b.subrange(p, p + enc_c_key_size(b))
}

pub open spec fn enc_c_desc_md5(b: Seq<u8>, i: int) -> Seq<u8> {
    let p = enc_cdesc_pos(b) + i * (enc_c_key_size(b) + 16) + enc_c_key_size(b);
    b.subrange(p, p + 16)
}

pub open spec fn enc_c_body(b: Seq<u8>, i: int) -> Seq<u8> {
    let p = enc_cbody_pos(b) + i * enc_c_page_size(b);
    b.subrange(p, p + enc_c_page_size(b))
}

pub open spec fn enc_e_desc_key(b: Seq<u8>, i: int) -> Seq<u8> {
    let p = enc_edesc_pos(b) + i * (enc_e_key_size(b) + 16);
    b.subrange(p, p + enc_e_key_size(b))
}

pub open spec fn enc_e_desc_md5(b: Seq<u8>, i: int) -> Seq<u8> {
    let p = enc_edesc_pos(b) + i * (enc_e_key_size(b) + 16) + enc_e_key_size(b);
    b.subrange(p, p + 16)
}

pub open spec fn enc_e_body(b: Seq<u8>, i: int) -> Seq<u8> {
    let p = enc_ebody_pos(b) + i * enc_e_page_size(b);
    b.subrange(p, p + enc_e_page_size(b))
}

/// The records of one content-key page body, scanned from `pos`: a record is
/// one count byte (at least 1, or the page ends here), a 5-byte content
/// size, the content key, and `count` encoding keys; the scan stops at the
/// first record that does not fit the page.
pub open spec fn scan_c_records(body: Seq<u8>, pos: int, ck: int, ek: int) -> Seq<CToEKeyModel>
    recommends
        0 <= pos,
        0 <= ck,
        0 <= ek,
    decreases body.len() - pos,
    when 0 <= pos && 0 <= ck && 0 <= ek
    via scan_c_records_dec
{
    if pos + 6 + ck > body.len() {
        Seq::empty()
    } else {
        let count = body[pos] as int;
        if count < 1 {
            Seq::empty()
        } else if pos + 6 + ck + count * ek > body.len() {
            Seq::empty()
        } else {
            let rec = CToEKeyModel {
                c_key: body.subrange(pos + 6, pos + 6 + ck),
                e_keys: Seq::new(
                    count as nat,
                    |j: int| body.subrange(pos + 6 + ck + j * ek, pos + 6 + ck + j * ek + ek),
                ),
                c_size: be_val(body, pos + 1, 5) as u64,
            };
            seq![rec] + scan_c_records(body, pos + 6 + ck + count * ek, ck, ek)
        }
    }
}

#[via_fn]
proof fn scan_c_records_dec(body: Seq<u8>, pos: int, ck: int, ek: int) {
    if pos + 6 + ck <= body.len() {
        let count = body[pos] as int;
        if count >= 1 && pos + 6 + ck + count * ek <= body.len() {
            vstd::arithmetic::mul::lemma_mul_nonnegative(count, ek);
        }
    }
}

/// The records of one encoding-key page body, scanned from `pos`: a record
/// is the encoding key, a 4-byte index into the spec-string list, and a
/// 5-byte encoded size; the scan stops at the first record that does not fit
/// the page. An index past the list stands for the empty string.
pub open spec fn scan_e_records(
    body: Seq<u8>,
    pos: int,
    ek: int,
    especs: Seq<Seq<u8>>,
) -> Seq<EKeySpecModel>
    recommends
        0 <= pos,
        0 <= ek,
    decreases body.len() - pos,
    when 0 <= pos && 0 <= ek
{
    if pos + ek + 9 > body.len() {
        Seq::empty()
    } else {
        let idx = be_val(body, pos + ek, 4);
        let rec = EKeySpecModel {
            e_key: body.subrange(pos, pos + ek),
            e_spec: if idx < especs.len() {
                especs[idx]
            } else {
                Seq::empty()
            },
            e_size: be_val(body, pos + ek + 4, 5) as u64,
        };
        seq![rec] + scan_e_records(body, pos + ek + 9, ek, especs)
    }
}

/// The spec-string list of the table.
pub open spec fn enc_especs(b: Seq<u8>) -> Seq<Seq<u8>> {
    spec_strings(b.subrange(22, 22 + enc_spec_block_len(b)), 0)
}

pub open spec fn spec_c_page(b: Seq<u8>, i: int) -> CToEKeyPageModel {
    CToEKeyPageModel {
        first_c_key: enc_c_desc_key(b, i),
        md5: enc_c_desc_md5(b, i),
        c_to_e_keys: scan_c_records(enc_c_body(b, i), 0, enc_c_key_size(b), enc_e_key_size(b)),
    }
}

pub open spec fn spec_e_page(b: Seq<u8>, i: int) -> EKeySpecPageModel {
    EKeySpecPageModel {
        first_e_key: enc_e_desc_key(b, i),
        md5: enc_e_desc_md5(b, i),
        e_key_specs: scan_e_records(enc_e_body(b, i), 0, enc_e_key_size(b), enc_especs(b)),
    }
}

/// The table denoted by well-formed bytes.
pub open spec fn spec_encoding(b: Seq<u8>) -> EncodingModel {
    EncodingModel {
        c_pages: Seq::new(enc_c_page_count(b) as nat, |i: int| spec_c_page(b, i)),
        e_pages: Seq::new(enc_e_page_count(b) as nat, |i: int| spec_e_page(b, i)),
    }
}

/// Why the table is rejected, or `None` if it parses: a wrong magic, version
/// byte, pad byte, or a region that does not fit the input is an unsupported
/// format — every declared region is sized before any page is checked — and
/// a page body that does not match its descriptor's MD5 is an integrity
/// fault.
pub open spec fn encoding_err(b: Seq<u8>) -> Option<TactError> {
    if !enc_magic_ok(b) {
        Some(TactError::Unsupported)
    } else if b[2] != 1u8 {
        Some(TactError::Unsupported)
    } else if b[17] != 0u8 {
        Some(TactError::Unsupported)
    } else if b.len() < enc_end(b) {
        Some(TactError::Unsupported)
    } else if exists|i: int|
        0 <= i < enc_c_page_count(b) && md5_of(#[trigger] enc_c_body(b, i)) != enc_c_desc_md5(
            b,
            i,
        ) {
        Some(TactError::IntegrityError)
    } else if exists|i: int|
        0 <= i < enc_e_page_count(b) && md5_of(#[trigger] enc_e_body(b, i)) != enc_e_desc_md5(
            b,
            i,
        ) {
        Some(TactError::IntegrityError)
    } else {
        None
    }
}

/// The first record whose content key is `key`, among the records of `recs`
/// from `i` on.
pub open spec fn find_c_record(recs: Seq<CToEKeyModel>, i: int, key: Seq<u8>) -> Option<
    CToEKeyModel,
>
    decreases recs.len() - i,
{
    if i < 0 || i >= recs.len() {
        None
    } else if recs[i].c_key == key {
        Some(recs[i])
    } else {
        find_c_record(recs, i + 1, key)
    }
}

/// The canonical encoding key of `key`: pages are scanned in file order, and
/// the first record whose content key matches decides — its first encoding
/// key, or nothing in the degenerate case of a record without keys.
pub open spec fn spec_resolve(pages: Seq<CToEKeyPageModel>, i: int, key: Seq<u8>) -> Option<
    Seq<u8>,
>
    decreases pages.len() - i,
{
    if i < 0 || i >= pages.len() {
        None
    } else {
        match find_c_record(pages[i].c_to_e_keys, 0, key) {
            Some(rec) => if rec.e_keys.len() >= 1 {
                Some(rec.e_keys[0])
            } else {
                None
            },
            None => spec_resolve(pages, i + 1, key),
        }
    }
}

/// The views of a sequence of byte vectors.
pub open spec fn byte_vec_views(s: Seq<Vec<u8>>) -> Seq<Seq<u8>> {
    s.map_values(|v: Vec<u8>| v@)
}

/// The views of a sequence of content-key records.
pub open spec fn c_rec_views(s: Seq<CToEKey>) -> Seq<CToEKeyModel> {
    s.map_values(|r: CToEKey| r@)
}

/// The views of a sequence of encoding-key records.
pub open spec fn e_rec_views(s: Seq<EKeySpec>) -> Seq<EKeySpecModel> {
    s.map_values(|r: EKeySpec| r@)
}

impl CToEKey {
    /// Parse one content-key record at `pos`, or nothing where the scan of
    /// this page ends: at a record that does not fit or that declares no
    /// encoding keys.
    pub fn read_from(d: &[u8], pos: usize, c_key_size: u8, e_key_size: u8) -> (r: Option<
        (CToEKey, usize),
    >)
        requires
            pos <= d@.len(),
        ensures
            match r {
                Some(p) => scan_c_records(d@, pos as int, c_key_size as int, e_key_size as int)
                    == seq![p.0@] + scan_c_records(
                    d@,
                    p.1 as int,
                    c_key_size as int,
                    e_key_size as int,
                ) && pos < p.1 <= d@.len(),
                None => scan_c_records(d@, pos as int, c_key_size as int, e_key_size as int)
                    == Seq::<CToEKeyModel>::empty(),
            },
    {
        proof {
            lemma_slice_len(d);
        }
        let ck = c_key_size as usize;
        let ek = e_key_size as usize;
        let len = d.len();
        if len - pos < 6 + ck {
            return None;
        }
        let count = byte_at(d, pos) as usize;
        if count < 1 {
            return None;
        }
        proof {
            assert(count * ek <= 65025) by (nonlinear_arith)
                requires
                    count <= 255 && ek <= 255,
            ;
        }
        if count * ek > len - (pos + 6 + ck) {
            return None;
        }
        let c_size = read_uint_be(d, pos + 1, 5);
        let c_key = slice_to_vec(slice_subrange(d, pos + 6, pos + 6 + ck));
        let base = pos + 6 + ck;
        let mut e_keys: Vec<Vec<u8>> = Vec::new();
        let mut j: usize = 0;
        while j < count
            invariant
                j <= count,
                d@.len() <= usize::MAX,
                count <= 255,
                ek <= 255,
                base + count * ek <= d@.len(),
                ek == e_key_size as int,
                e_keys@.len() == j,
                forall|k: int| 0 <= k < j ==> (#[trigger] e_keys@[k])@ == d@.subrange(
                    base + k * ek,
                    base + k * ek + ek,
                ),
            decreases count - j,
        {
            proof {
                vstd::arithmetic::mul::lemma_mul_inequality(j as int, count as int, ek as int);
                vstd::arithmetic::mul::lemma_mul_inequality(j + 1, count as int, ek as int);
                vstd::arithmetic::mul::lemma_mul_nonnegative(j as int, ek as int);
                assert((j + 1) * ek == j * ek + ek) by (nonlinear_arith);
            }
            e_keys.push(slice_to_vec(slice_subrange(d, base + j * ek, base + j * ek + ek)));
            j = j + 1;
        }
        let next = base + count * ek;
        let rec = CToEKey { c_key, e_keys, c_size };
        proof {
            lemma_be_val_bound(d@, pos + 1, 5);
            lemma_pow256_le(5, 8);
            lemma_pow256_words();
            assert(crate::bytes::pow256(5) <= 0x1_0000_0000_0000_0000);
            let head = scan_c_records(d@, pos as int, c_key_size as int, e_key_size as int)[0];
            assert(rec@.e_keys =~~= head.e_keys);
            assert(rec@ == head);
        }
        Some((rec, next))
    }
}

impl EKeySpec {
    /// Parse one encoding-key record at `pos`, or nothing where the record
    /// does not fit and the scan of this page ends. `especs` is the table's
    /// spec-string list; an index past it stands for the empty string.
    pub fn read_from(d: &[u8], pos: usize, e_key_size: u8, especs: &Vec<Vec<u8>>) -> (r: Option<
        (EKeySpec, usize),
    >)
        requires
            pos <= d@.len(),
        ensures
            match r {
                Some(p) => scan_e_records(
                    d@,
                    pos as int,
                    e_key_size as int,
                    byte_vec_views(especs@),
                ) == seq![p.0@] + scan_e_records(
                    d@,
                    p.1 as int,
                    e_key_size as int,
                    byte_vec_views(especs@),
                ) && pos < p.1 <= d@.len(),
                None => scan_e_records(d@, pos as int, e_key_size as int, byte_vec_views(especs@))
                    == Seq::<EKeySpecModel>::empty(),
            },
    {
        proof {
            lemma_slice_len(d);
        }
        let ek = e_key_size as usize;
        let len = d.len();
        if len - pos < ek + 9 {
            return None;
        }
        let e_key = slice_to_vec(slice_subrange(d, pos, pos + ek));
        let idx = read_u32_be(d, pos + ek);
        let e_size = read_uint_be(d, pos + ek + 4, 5);
        let e_spec: Vec<u8> = if (idx as usize) < especs.len() {
            slice_to_vec(especs[idx as usize].as_slice())
        } else {
            Vec::new()
        };
        let rec = EKeySpec { e_key, e_spec, e_size };
        proof {
            lemma_be_val_bound(d@, pos + ek, 4);
            lemma_be_val_bound(d@, pos + ek + 4, 5);
            lemma_pow256_le(5, 8);
            lemma_pow256_words();
            assert(crate::bytes::pow256(5) <= 0x1_0000_0000_0000_0000);
            let especsv = byte_vec_views(especs@);
            let head = scan_e_records(d@, pos as int, e_key_size as int, especsv)[0];
            assert(rec@ == head);
        }
        Some((rec, pos + ek + 9))
    }
}

/// Every record of `recs` carries at least one encoding key.
pub open spec fn recs_nonempty(recs: Seq<CToEKeyModel>) -> bool {
    forall|k: int| 0 <= k < recs.len() ==> (#[trigger] recs[k]).e_keys.len() >= 1
}

/// Every record of every page carries at least one encoding key.
pub open spec fn pages_nonempty(pages: Seq<CToEKeyPageModel>) -> bool {
    forall|j: int| 0 <= j < pages.len() ==> recs_nonempty((#[trigger] pages[j]).c_to_e_keys)
}

/// The content-key page scan only yields records with at least one encoding
/// key: a record that declares none ends its page.
pub proof fn lemma_scan_c_nonempty(body: Seq<u8>, pos: int, ck: int, ek: int)
    requires
        0 <= pos,
        0 <= ck,
        0 <= ek,
    ensures
        recs_nonempty(scan_c_records(body, pos, ck, ek)),
    decreases body.len() - pos,
{
    if pos + 6 + ck <= body.len() {
        let count = body[pos] as int;
        if count >= 1 && pos + 6 + ck + count * ek <= body.len() {
            vstd::arithmetic::mul::lemma_mul_nonnegative(count, ek);
            lemma_scan_c_nonempty(body, pos + 6 + ck + count * ek, ck, ek);
        }
    }
}

/// Every content-key page of a parsed table satisfies [`pages_nonempty`].
pub proof fn lemma_parsed_pages_nonempty(b: Seq<u8>)
    ensures
        pages_nonempty(spec_encoding(b).c_pages),
{
    assert forall|j: int| 0 <= j < spec_encoding(b).c_pages.len() implies recs_nonempty(
        (#[trigger] spec_encoding(b).c_pages[j]).c_to_e_keys,
    ) by {
        lemma_scan_c_nonempty(enc_c_body(b, j), 0, enc_c_key_size(b), enc_e_key_size(b));
    }
}

proof fn lemma_find_c_record_nonempty(recs: Seq<CToEKeyModel>, i: int, key: Seq<u8>)
    requires
        recs_nonempty(recs),
        find_c_record(recs, i, key) is Some,
    ensures
        find_c_record(recs, i, key)->Some_0.e_keys.len() >= 1,
    decreases recs.len() - i,
{
    if 0 <= i < recs.len() && recs[i].c_key != key {
        lemma_find_c_record_nonempty(recs, i + 1, key);
    }
}

/// On a table whose records all carry keys — every parsed table does —
/// resolution fails exactly for the keys no page holds: a key present in any
/// page resolves, however many pages are scanned before it, and an absent
/// key never does.
pub proof fn lemma_resolve_complete(pages: Seq<CToEKeyPageModel>, i: int, key: Seq<u8>)
    requires
        0 <= i,
        pages_nonempty(pages),
    ensures
        (spec_resolve(pages, i, key) is None) <==> (forall|j: int|
            i <= j < pages.len() ==> find_c_record((#[trigger] pages[j]).c_to_e_keys, 0, key)
                is None),
    decreases pages.len() - i,
{
    if i < pages.len() {
        lemma_resolve_complete(pages, i + 1, key);
        if find_c_record(pages[i].c_to_e_keys, 0, key) is Some {
            lemma_find_c_record_nonempty(pages[i].c_to_e_keys, 0, key);
        }
    }
}

/// The bytes of the NUL-terminated string at `pos`, and the position just
/// past its terminator; or nothing when no NUL follows.
pub fn read_asciiz(d: &[u8], pos: usize) -> (r: Option<(Vec<u8>, usize)>)
    requires
        pos <= d@.len(),
    ensures
        match r {
            Some(p) => first_nul(d@, pos as int) < d@.len() && p.0@ == d@.subrange(
                pos as int,
                first_nul(d@, pos as int),
            ) && p.1 == first_nul(d@, pos as int) + 1,
            None => first_nul(d@, pos as int) >= d@.len(),
        },
{
    proof {
        lemma_slice_len(d);
    }
    let len = d.len();
    let mut end: usize = pos;
    while end < len && byte_at(d, end) != 0
        invariant
            pos <= end <= len,
            len == d@.len(),
            forall|j: int| pos <= j < end ==> d@[j] != 0,
        decreases len - end,
    {
        end = end + 1;
    }
    proof {
        lemma_first_nul(d@, pos as int, end as int);
    }
    if end == len {
        return None;
    }
    Some((slice_to_vec(slice_subrange(d, pos, end)), end + 1))
}

impl Encoding {
    /// Parse the table. The magic, version byte and pad byte must match and
    /// every region the header declares must fit the input — all sizes are
    /// checked before any page — and then every page body must match its
    /// descriptor's MD5 before its records are scanned.
    pub fn read_from(d: &[u8]) -> (r: Result<Encoding, TactError>)
        ensures
            match r {
                Ok(enc) => encoding_err(d@) is None && enc@ == spec_encoding(d@),
                Err(e) => encoding_err(d@) == Some(e),
            },
    {
        proof {
            lemma_slice_len(d);
        }
        let len64 = d.len() as u64;
        if d.len() < 22 {
            return Err(TactError::Unsupported);
        }
        if !(byte_at(d, 0) == 0x45 && byte_at(d, 1) == 0x4E) {
            return Err(TactError::Unsupported);
        }
        if byte_at(d, 2) != 1 {
            return Err(TactError::Unsupported);
        }
        if byte_at(d, 17) != 0 {
            return Err(TactError::Unsupported);
        }
        let ck = byte_at(d, 3);
        let ek = byte_at(d, 4);
        let cpkb = read_u16_be(d, 5);
        let epkb = read_u16_be(d, 7);
        let ccount = read_u32_be(d, 9);
        let ecount = read_u32_be(d, 13);
        let sbl = read_u32_be(d, 18);
        let cstride64: u64 = ck as u64 + 16;
        let cpsz64: u64 = cpkb as u64 * 1024;
        let estride64: u64 = ek as u64 + 16;
        let epsz64: u64 = epkb as u64 * 1024;
        proof {
            assert((ccount as u64) * cstride64 <= 0x200_0000_0000u64 && (ccount as u64) * cpsz64
                <= 0x400_0000_0000_0000u64 && (ecount as u64) * estride64 <= 0x200_0000_0000u64 && (
            ecount as u64) * epsz64 <= 0x400_0000_0000_0000u64) by (nonlinear_arith)
                requires
                    ccount as u64 <= 0xFFFF_FFFFu64,
                    ecount as u64 <= 0xFFFF_FFFFu64,
                    cstride64 <= 271u64,
                    estride64 <= 271u64,
                    cpsz64 <= 0x400_0000u64,
                    epsz64 <= 0x400_0000u64,
            ;
        }
        let cdesc64: u64 = 22 + sbl as u64;
        let cbody64: u64 = cdesc64 + ccount as u64 * cstride64;
        let edesc64: u64 = cbody64 + ccount as u64 * cpsz64;
        let ebody64: u64 = edesc64 + ecount as u64 * estride64;
        let end64: u64 = ebody64 + ecount as u64 * epsz64;
        if len64 < end64 {
            return Err(TactError::Unsupported);
        }
        let sblu = sbl as usize;
        let especs_region = slice_subrange(d, 22, 22 + sblu);
        let mut especs: Vec<Vec<u8>> = Vec::new();
        let mut sp: usize = 0;
        proof {
            assert(byte_vec_views(especs@) + spec_strings(especs_region@, 0) =~= spec_strings(
                especs_region@,
                0,
            ));
        }
        loop
            invariant_except_break
                sp <= especs_region@.len(),
                especs_region@ == d@.subrange(22, 22 + enc_spec_block_len(d@)),
                spec_strings(especs_region@, 0) == byte_vec_views(especs@) + spec_strings(
                    especs_region@,
                    sp as int,
                ),
            ensures
                byte_vec_views(especs@) == enc_especs(d@),
            decreases especs_region@.len() - sp,
        {
            match read_asciiz(especs_region, sp) {
                Some((sv, np)) => {
                    let ghost before = especs@;
                    let ghost e = first_nul(especs_region@, sp as int);
                    especs.push(sv);
                    proof {
                        lemma_first_nul_range(especs_region@, sp as int);
                        assert(spec_strings(especs_region@, sp as int) == seq![
                            especs_region@.subrange(sp as int, e),
                        ] + spec_strings(especs_region@, e + 1));
                        assert(byte_vec_views(before) + (seq![especs_region@.subrange(
                            sp as int,
                            e,
                        )] + spec_strings(especs_region@, e + 1)) =~= byte_vec_views(especs@)
                            + spec_strings(especs_region@, e + 1));
                    }
                    sp = np;
                },
                None => {
                    proof {
                        assert(spec_strings(especs_region@, sp as int) =~= Seq::<Seq<u8>>::empty());
                        assert(byte_vec_views(especs@) + Seq::<Seq<u8>>::empty() =~= byte_vec_views(
                            especs@,
                        ));
                    }
                    break;
                },
            }
        }
        let ccountu = ccount as usize;
        let ecountu = ecount as usize;
        let cdescu = cdesc64 as usize;
        let cbodyu = cbody64 as usize;
        let edescu = edesc64 as usize;
        let ebodyu = ebody64 as usize;
        let cstrideu = cstride64 as usize;
        let cpszu = cpsz64 as usize;
        let estrideu = estride64 as usize;
        let epszu = epsz64 as usize;
        let cku = ck as usize;
        let eku = ek as usize;
        let mut c_pages: Vec<CToEKeyPage> = Vec::new();
        let mut i: usize = 0;
        while i < ccountu
            invariant
                i <= ccountu,
                d@.len() <= usize::MAX,
                enc_magic_ok(d@),
                d@[2] == 1u8,
                d@[17] == 0u8,
                enc_end(d@) <= d@.len(),
                ccountu == enc_c_page_count(d@),
                cdescu == enc_cdesc_pos(d@),
                cbodyu == enc_cbody_pos(d@),
                edescu == enc_edesc_pos(d@),
                cstrideu == enc_c_key_size(d@) + 16,
                cpszu == enc_c_page_size(d@),
                cku == enc_c_key_size(d@),
                eku == enc_e_key_size(d@),
                cku == ck as int,
                eku == ek as int,
                cdescu + ccountu * cstrideu == cbodyu,
                cbodyu + ccountu * cpszu == edescu,
                edescu <= d@.len(),
                c_pages@.len() == i,
                forall|j: int| 0 <= j < i ==> (#[trigger] c_pages@[j])@ == spec_c_page(d@, j),
                forall|j: int| 0 <= j < i ==> md5_of(#[trigger] enc_c_body(d@, j))
                    == enc_c_desc_md5(d@, j),
            decreases ccountu - i,
        {
            proof {
                vstd::arithmetic::mul::lemma_mul_inequality(i as int, ccountu as int, cstrideu as int);
                vstd::arithmetic::mul::lemma_mul_inequality(i + 1, ccountu as int, cstrideu as int);
                vstd::arithmetic::mul::lemma_mul_inequality(i as int, ccountu as int, cpszu as int);
                vstd::arithmetic::mul::lemma_mul_inequality(i + 1, ccountu as int, cpszu as int);
                vstd::arithmetic::mul::lemma_mul_nonnegative(i as int, cstrideu as int);
                vstd::arithmetic::mul::lemma_mul_nonnegative(i as int, cpszu as int);
                assert((i + 1) * cstrideu == i * cstrideu + cstrideu) by (nonlinear_arith);
                assert((i + 1) * cpszu == i * cpszu + cpszu) by (nonlinear_arith);
            }
            let dp = cdescu + i * cstrideu;
            let bp = cbodyu + i * cpszu;
            let first = slice_to_vec(slice_subrange(d, dp, dp + cku));
            let md5v = slice_to_vec(slice_subrange(d, dp + cku, dp + cku + 16));
            let body = slice_subrange(d, bp, bp + cpszu);
            proof {
                assert(first@ =~= enc_c_desc_key(d@, i as int));
                assert(md5v@ =~= enc_c_desc_md5(d@, i as int));
                assert(body@ =~= enc_c_body(d@, i as int));
            }
            let digest = md5_digest(body);
            if !slices_eq(digest.as_slice(), md5v.as_slice()) {
                return Err(TactError::IntegrityError);
            }
            let mut recs: Vec<CToEKey> = Vec::new();
            let mut rp: usize = 0;
            proof {
                assert(c_rec_views(recs@) + scan_c_records(body@, 0, cku as int, eku as int)
                    =~= scan_c_records(body@, 0, cku as int, eku as int));
            }
            loop
                invariant_except_break
                    rp <= body@.len(),
                    cku == ck as int,
                    eku == ek as int,
                    scan_c_records(body@, 0, cku as int, eku as int) == c_rec_views(recs@)
                        + scan_c_records(body@, rp as int, cku as int, eku as int),
                ensures
                    c_rec_views(recs@) == scan_c_records(body@, 0, cku as int, eku as int),
                decreases body@.len() - rp,
            {
                match CToEKey::read_from(body, rp, ck, ek) {
                    Some((rec, np)) => {
                        let ghost before = recs@;
                        let ghost recm = rec@;
                        recs.push(rec);
                        proof {
                            assert(c_rec_views(before) + (seq![recm] + scan_c_records(
                                body@,
                                np as int,
                                cku as int,
                                eku as int,
                            )) =~= c_rec_views(recs@) + scan_c_records(
                                body@,
                                np as int,
                                cku as int,
                                eku as int,
                            ));
                        }
                        rp = np;
                    },
                    None => {
                        proof {
                            assert(c_rec_views(recs@) + Seq::<CToEKeyModel>::empty()
                                =~= c_rec_views(recs@));
                        }
                        break;
                    },
                }
            }
            c_pages.push(CToEKeyPage { first_c_key: first, md5: md5v, c_to_e_keys: recs });
            proof {
                assert(c_pages@[i as int]@ == spec_c_page(d@, i as int));
            }
            i = i + 1;
        }
        let mut e_pages: Vec<EKeySpecPage> = Vec::new();
        let mut i: usize = 0;
        while i < ecountu
            invariant
                i <= ecountu,
                d@.len() <= usize::MAX,
                enc_magic_ok(d@),
                d@[2] == 1u8,
                d@[17] == 0u8,
                enc_end(d@) <= d@.len(),
                ecountu == enc_e_page_count(d@),
                edescu == enc_edesc_pos(d@),
                ebodyu == enc_ebody_pos(d@),
                estrideu == enc_e_key_size(d@) + 16,
                epszu == enc_e_page_size(d@),
                eku == enc_e_key_size(d@),
                eku == ek as int,
                edescu + ecountu * estrideu == ebodyu,
                ebodyu + ecountu * epszu == enc_end(d@),
                byte_vec_views(especs@) == enc_especs(d@),
                e_pages@.len() == i,
                forall|j: int| 0 <= j < i ==> (#[trigger] e_pages@[j])@ == spec_e_page(d@, j),
                forall|j: int| 0 <= j < i ==> md5_of(#[trigger] enc_e_body(d@, j))
                    == enc_e_desc_md5(d@, j),
            decreases ecountu - i,
        {
            proof {
                vstd::arithmetic::mul::lemma_mul_inequality(i as int, ecountu as int, estrideu as int);
                vstd::arithmetic::mul::lemma_mul_inequality(i + 1, ecountu as int, estrideu as int);
                vstd::arithmetic::mul::lemma_mul_inequality(i as int, ecountu as int, epszu as int);
                vstd::arithmetic::mul::lemma_mul_inequality(i + 1, ecountu as int, epszu as int);
                vstd::arithmetic::mul::lemma_mul_nonnegative(i as int, estrideu as int);
                vstd::arithmetic::mul::lemma_mul_nonnegative(i as int, epszu as int);
                assert((i + 1) * estrideu == i * estrideu + estrideu) by (nonlinear_arith);
                assert((i + 1) * epszu == i * epszu + epszu) by (nonlinear_arith);
            }
            let dp = edescu + i * estrideu;
            let bp = ebodyu + i * epszu;
            let first = slice_to_vec(slice_subrange(d, dp, dp + eku));
            let md5v = slice_to_vec(slice_subrange(d, dp + eku, dp + eku + 16));
            let body = slice_subrange(d, bp, bp + epszu);
            proof {
                assert(first@ =~= enc_e_desc_key(d@, i as int));
                assert(md5v@ =~= enc_e_desc_md5(d@, i as int));
                assert(body@ =~= enc_e_body(d@, i as int));
            }
            let digest = md5_digest(body);
            if !slices_eq(digest.as_slice(), md5v.as_slice()) {
                return Err(TactError::IntegrityError);
            }
            let mut recs: Vec<EKeySpec> = Vec::new();
            let mut rp: usize = 0;
            proof {
                assert(e_rec_views(recs@) + scan_e_records(
                    body@,
                    0,
                    eku as int,
                    byte_vec_views(especs@),
                ) =~= scan_e_records(body@, 0, eku as int, byte_vec_views(especs@)));
            }
            loop
                invariant_except_break
                    rp <= body@.len(),
                    eku == ek as int,
                    scan_e_records(body@, 0, eku as int, byte_vec_views(especs@)) == e_rec_views(
                        recs@,
                    ) + scan_e_records(body@, rp as int, eku as int, byte_vec_views(especs@)),
                ensures
                    e_rec_views(recs@) == scan_e_records(
                        body@,
                        0,
                        eku as int,
                        byte_vec_views(especs@),
                    ),
                decreases body@.len() - rp,
            {
                match EKeySpec::read_from(body, rp, ek, &especs) {
                    Some((rec, np)) => {
                        let ghost before = recs@;
                        let ghost recm = rec@;
                        recs.push(rec);
                        proof {
                            assert(e_rec_views(before) + (seq![recm] + scan_e_records(
                                body@,
                                np as int,
                                eku as int,
                                byte_vec_views(especs@),
                            )) =~= e_rec_views(recs@) + scan_e_records(
                                body@,
                                np as int,
                                eku as int,
                                byte_vec_views(especs@),
                            ));
                        }
                        rp = np;
                    },
                    None => {
                        proof {
                            assert(e_rec_views(recs@) + Seq::<EKeySpecModel>::empty()
                                =~= e_rec_views(recs@));
                        }
                        break;
                    },
                }
            }
            e_pages.push(EKeySpecPage { first_e_key: first, md5: md5v, e_key_specs: recs });
            proof {
                assert(e_pages@[i as int]@ == spec_e_page(d@, i as int));
            }
            i = i + 1;
        }
        let enc = Encoding { c_to_e_key_page_table: c_pages, e_key_spec_page_table: e_pages };
        proof {
            assert(enc@.c_pages =~~= spec_encoding(d@).c_pages);
            assert(enc@.e_pages =~~= spec_encoding(d@).e_pages);
        }
        Ok(enc)
    }

    /// The canonical encoding key for a content key: the first encoding key
    /// of the first record that matches, scanning the pages in file order;
    /// `None` when no page holds the key.
    pub fn get(&self, key: &[u8]) -> (r: Option<Vec<u8>>)
        ensures
            match r {
                Some(v) => spec_resolve(self@.c_pages, 0, key@) == Some(v@),
                None => spec_resolve(self@.c_pages, 0, key@) is None,
            },
    {
        let ghost pages = self@.c_pages;
        let npages = self.c_to_e_key_page_table.len();
        let mut i: usize = 0;
        while i < npages
            invariant
                i <= npages,
                npages == self.c_to_e_key_page_table@.len(),
                pages == self@.c_pages,
                spec_resolve(pages, 0, key@) == spec_resolve(pages, i as int, key@),
            decreases npages - i,
        {
            let page = &self.c_to_e_key_page_table[i];
            proof {
                assert(pages[i as int] == self.c_to_e_key_page_table@[i as int]@);
            }
            let ghost recs = pages[i as int].c_to_e_keys;
            let nrecs = page.c_to_e_keys.len();
            let mut j: usize = 0;
            while j < nrecs
                invariant
                    j <= nrecs,
                    i < npages,
                    npages == self.c_to_e_key_page_table@.len(),
                    nrecs == page.c_to_e_keys@.len(),
                    pages == self@.c_pages,
                    page == &self.c_to_e_key_page_table@[i as int],
                    recs == page@.c_to_e_keys,
                    recs == pages[i as int].c_to_e_keys,
                    spec_resolve(pages, 0, key@) == spec_resolve(pages, i as int, key@),
                    find_c_record(recs, 0, key@) == find_c_record(recs, j as int, key@),
                decreases nrecs - j,
            {
                let rec = &page.c_to_e_keys[j];
                proof {
                    assert(recs[j as int] == page.c_to_e_keys@[j as int]@);
                }
                if slices_eq(rec.c_key.as_slice(), key) {
                    proof {
                        assert(find_c_record(recs, j as int, key@) == Some(recs[j as int]));
                    }
                    if rec.e_keys.len() >= 1 {
                        let out = slice_to_vec(rec.e_keys[0].as_slice());
                        proof {
                            assert(recs[j as int].e_keys[0] == rec.e_keys@[0]@);
                        }
                        return Some(out);
                    } else {
                        return None;
                    }
                }
                j = j + 1;
            }
            proof {
                assert(find_c_record(recs, nrecs as int, key@) is None);
            }
            i = i + 1;
        }
        None
    }
}

} // verus!
