//! Decryption and layout of the content manifests: a 32-byte key and a
//! 16-byte IV are derived from the build version, the record count and the
//! SHA-1 digest of the manifest's own file name by walking a fixed 512-byte
//! substitution table, the body is decrypted as AES-256-CBC with no padding,
//! and the plaintext is a flat run of fixed-width little-endian entry
//! records followed by asset records.

use vstd::prelude::*;
use crate::bytes::le_val;
use crate::bytes::lemma_le_val_bound;
use crate::bytes::lemma_pow256_words;
use crate::bytes::lemma_slice_len;
use crate::bytes::read_u32_le;
use crate::bytes::read_u64_le;
use crate::bytes::byte_at;
use crate::crypto::aes256_cbc_decrypt;
use crate::crypto::aes256_cbc_plain;
use crate::crypto::sha1_digest;
use crate::crypto::sha1_of;
use vstd::array::array_index_get;
use vstd::slice::slice_subrange;
use vstd::slice::slice_to_vec;

verus! {

/// The fixed substitution table that key and IV derivation walk.
pub const KEYTABLE: [u8; 512] = [
    0xCB, 0x08, 0x59, 0x42, 0x68, 0xE7, 0xC9, 0xE7, 0x34, 0x4A, 0x62, 0xB2, 0xD2, 0x66, 0x22, 0x49,
    0x05, 0x93, 0x09, 0x3E, 0x32, 0x32, 0xE8, 0x82, 0x62, 0x34, 0xDD, 0xA9, 0x8B, 0x4C, 0x3D, 0xF9,
    0xFF, 0xF2, 0x42, 0x3A, 0x3B, 0xC7, 0x8B, 0x0B, 0xDC, 0x73, 0x9F, 0x1A, 0x28, 0x1C, 0x01, 0xF8,
    0xAA, 0x7A, 0xFD, 0x0C, 0xC5, 0x38, 0x98, 0xE6, 0x37, 0x39, 0xE0, 0xC6, 0xCA, 0xB6, 0x58, 0x2D,
    0xB6, 0x56, 0xFE, 0x7A, 0x11, 0x22, 0xB5, 0xDA, 0xDE, 0x35, 0xF2, 0xE9, 0xE9, 0x0A, 0x45, 0x70,
    0xE2, 0x8E, 0x1E, 0xED, 0xAE, 0x49, 0x0D, 0x91, 0x9F, 0x87, 0xC6, 0x3F, 0x17, 0xB9, 0x15, 0x47,
    0xC8, 0x96, 0x7A, 0xA9, 0x48, 0x9F, 0xD5, 0x31, 0x0F, 0xEE, 0xB8, 0xDE, 0xFA, 0x47, 0x06, 0xFA,
    0xA4, 0x34, 0x26, 0xB4, 0x72, 0x84, 0xBD, 0x74, 0x61, 0x2B, 0x81, 0xB5, 0x81, 0x0E, 0x1D, 0x2F,
    0x70, 0xBF, 0xBF, 0x28, 0x10, 0x9C, 0xBE, 0x08, 0x09, 0xC4, 0x74, 0x55, 0x38, 0x68, 0xB8, 0x2B,
    0xAC, 0x43, 0x1D, 0xEE, 0xD9, 0x1B, 0xB9, 0xDE, 0xE7, 0xFF, 0xDB, 0xF3, 0x4E, 0x04, 0x8B, 0x70,
    0x5F, 0xFE, 0x2D, 0xC8, 0x4A, 0x82, 0xAD, 0x1D, 0xF0, 0x68, 0xE3, 0x13, 0x05, 0x32, 0x8E, 0x8C,
    0x4B, 0x77, 0x89, 0x69, 0xAF, 0xFC, 0x85, 0xA6, 0xE3, 0x56, 0x70, 0xC7, 0x66, 0xEC, 0xCB, 0xE0,
    0x39, 0x59, 0x06, 0xBF, 0xBE, 0x6F, 0x8B, 0x83, 0xA2, 0xF8, 0xE3, 0xE7, 0x74, 0x78, 0x30, 0xD9,
    0xA5, 0x96, 0xAD, 0x73, 0x74, 0x45, 0xB4, 0x07, 0xC3, 0x68, 0xE8, 0x81, 0xB9, 0xEC, 0xF6, 0xED,
    0x12, 0x0F, 0xC9, 0x88, 0x2A, 0xCE, 0xF1, 0x26, 0xAB, 0xFA, 0x04, 0xBE, 0xE7, 0x7C, 0x4A, 0x64,
    0xF4, 0x90, 0xB8, 0xF2, 0x9C, 0xF4, 0x8C, 0x61, 0xDA, 0x15, 0x66, 0xDF, 0x7C, 0xDE, 0x28, 0x2E,
    0xE6, 0x02, 0x7C, 0x36, 0xFA, 0xD4, 0xD5, 0xE8, 0x01, 0x7D, 0x4B, 0xDF, 0x5F, 0x37, 0x9F, 0x51,
    0xC5, 0x16, 0xEE, 0x30, 0xA4, 0x3A, 0xB9, 0xFC, 0x27, 0x96, 0x4C, 0xB8, 0xC0, 0x2D, 0xF8, 0x42,
    0x36, 0x3A, 0x99, 0x52, 0xFE, 0x1F, 0xCB, 0x1A, 0xB8, 0x3C, 0xD8, 0x3A, 0x49, 0x05, 0xC8, 0x0E,
    0x49, 0x38, 0x34, 0x2E, 0x13, 0x2D, 0x51, 0x1B, 0x7C, 0xAC, 0xC9, 0x38, 0x10, 0x84, 0xF6, 0x4E,
    0xAD, 0x45, 0xB6, 0x87, 0x1D, 0x6A, 0xC2, 0xF1, 0x14, 0xDE, 0xA3, 0x94, 0xD0, 0xF2, 0x1D, 0x8C,
    0x45, 0x2A, 0xFD, 0x5E, 0x8F, 0x3A, 0x1E, 0x68, 0x04, 0x26, 0xBE, 0x8C, 0x79, 0x7F, 0x46, 0x4A,
    0xB6, 0x6B, 0xE2, 0x99, 0xB4, 0x11, 0x6F, 0x1D, 0xCE, 0x3D, 0xF9, 0xDD, 0x00, 0x69, 0x63, 0xD4,
    0x0E, 0x74, 0x74, 0x99, 0x66, 0x5F, 0x28, 0xF1, 0xF9, 0x11, 0x83, 0x00, 0x75, 0x8C, 0x2B, 0x67,
    0x78, 0xB0, 0x63, 0xA5, 0x23, 0x9B, 0xDF, 0x07, 0xD5, 0xEA, 0xAB, 0xFB, 0xA0, 0xBD, 0xC4, 0x41,
    0xBB, 0xE5, 0xC8, 0xC2, 0x12, 0x8D, 0x3F, 0x43, 0x31, 0x59, 0x01, 0x78, 0x93, 0xEC, 0xB9, 0x46,
    0x32, 0xFF, 0x90, 0x1D, 0xEE, 0xA9, 0x1B, 0x53, 0x61, 0x75, 0x24, 0x67, 0x1B, 0x69, 0x05, 0x77,
    0x24, 0x85, 0x22, 0xFD, 0x8E, 0x5E, 0xA6, 0x69, 0xFA, 0x94, 0x10, 0xFC, 0xC1, 0x65, 0xA9, 0x95,
    0x6B, 0xC0, 0x0B, 0xDE, 0x0B, 0x03, 0x76, 0x5D, 0x01, 0xF9, 0x9D, 0x77, 0x20, 0xDA, 0x36, 0x87,
    0x6E, 0xDE, 0x9E, 0x35, 0xE3, 0xAD, 0xEE, 0x8E, 0x22, 0xD2, 0xB4, 0x44, 0xDB, 0x46, 0x73, 0xFB,
    0x17, 0x51, 0x69, 0x9D, 0xDF, 0x20, 0x64, 0xBC, 0xD1, 0x54, 0x69, 0xA4, 0x6B, 0x8F, 0xA4, 0xDB,
    0x0D, 0x35, 0xAE, 0x5C, 0xF2, 0x35, 0x19, 0x9A, 0xE4, 0xA9, 0x61, 0xDB, 0x04, 0xEB, 0x06, 0xD2,
];

/// The fixed head of a content manifest.
#[derive(Clone, Copy, PartialEq, Eq, Structural, Debug)]
pub struct ContentManifestHeader {
    pub build_version: u32,
    pub u0: u32,
    pub u1: u32,
    pub u2: u32,
    pub u3: u32,
    pub u4: u32,
    pub u5: u32,
    pub asset_patch_record_count: u32,
    pub asset_count: u32,
    pub entry_patch_record_count: u32,
    pub entry_count: u32,
}

/// One fixed-width entry record of a decrypted manifest.
#[derive(Clone, Copy, PartialEq, Eq, Structural, Debug)]
pub struct ContentManifestEntry {
    pub index: u32,
    pub hash_a: u64,
    pub hash_b: u64,
}

/// One fixed-width asset record of a decrypted manifest: a packed identifier,
/// a size, and the content key of the asset's data.
#[derive(Clone, Debug)]
pub struct ContentManifestAsset {
    pub guid: u64,
    pub size: u32,
    pub unknown_0c: u8,
    pub md5: Vec<u8>,
}

/// The mathematical value of a [`ContentManifestAsset`].
#[verifier::ext_equal]
pub struct ContentManifestAssetModel {
    pub guid: u64,
    pub size: u32,
    pub unknown_0c: u8,
    pub md5: Seq<u8>,
}

impl View for ContentManifestAsset {
    type V = ContentManifestAssetModel;

    open spec fn view(&self) -> ContentManifestAssetModel {
        ContentManifestAssetModel {
            guid: self.guid,
            size: self.size,
            unknown_0c: self.unknown_0c,
            md5: self.md5@,
        }
    }
}

/// The fixed head of a resource graph.
#[derive(Clone, Copy, PartialEq, Eq, Structural, Debug)]
pub struct ResourceGraphHeader {
    pub u0: u32,
    pub build_version: u32,
    pub u1: u32,
    pub u2: u32,
    pub u3: u32,
    pub u4: u32,
    pub package_count: u32,
    pub package_block_size: u32,
    pub skin_count: u32,
    pub skin_block_size: u32,
    pub type_bundle_index_count: u32,
    pub type_bundle_index_block_size: u32,
    pub u5: u32,
    pub u6: u32,
    pub graph_block_size: u32,
}

/// The running key index after `j` steps: it starts at 32 times the build
/// version and each step replaces it by the build version minus itself, all
/// in wrapping arithmetic.
pub open spec fn manifest_kidx(bv: u32, j: int) -> u32
    decreases j,
{
    if j <= 0 {
        32u32.wrapping_mul(bv)
    } else {
        bv.wrapping_sub(manifest_kidx(bv, j - 1))
    }
}

/// The 32-byte decryption key derived from the build version alone.
pub open spec fn manifest_key(bv: u32) -> Seq<u8> {
    Seq::new(32, |j: int| KEYTABLE@[(manifest_kidx(bv, j) % 512) as int])
}

/// The running IV index after `j` steps: it starts at the table byte picked
/// by the build version's low bits and each step advances it by the build
/// version times the record count, modulo 7, in wrapping arithmetic.
pub open spec fn manifest_ividx(bv: u32, record_count: u32, j: int) -> u32
    decreases j,
{
    if j <= 0 {
        KEYTABLE@[(bv & 0x1FF) as int] as u32
    } else {
        manifest_ividx(bv, record_count, j - 1).wrapping_add(bv.wrapping_mul(record_count) % 7)
    }
}

/// The 16-byte IV: each byte is a table byte picked by the running index,
/// XORed with a byte of the file name's SHA-1 digest picked by the advanced
/// index less 73, modulo the digest length.
pub open spec fn manifest_iv(bv: u32, record_count: u32, digest: Seq<u8>) -> Seq<u8> {
    Seq::new(
        16,
        |j: int| KEYTABLE@[(manifest_ividx(bv, record_count, j) % 512) as int] ^ digest[(
        manifest_ividx(bv, record_count, j + 1).wrapping_sub(73) % 20) as int],
    )
}

/// The 32-byte key for a given build version.
fn derive_key(bv: u32) -> (r: Vec<u8>)
    ensures
        r@ == manifest_key(bv),
{
    let mut key: Vec<u8> = Vec::new();
    let mut kidx: u32 = 32u32.wrapping_mul(bv);
    let mut j: usize = 0;
    while j < 32
        invariant
            j <= 32,
            kidx == manifest_kidx(bv, j as int),
            key@.len() == j,
            forall|k: int| 0 <= k < j ==> #[trigger] key@[k] == KEYTABLE@[(manifest_kidx(bv, k)
                % 512) as int],
        decreases 32 - j,
    {
        key.push(*array_index_get(&KEYTABLE, (kidx % 512) as usize));
        kidx = bv.wrapping_sub(kidx);
        j = j + 1;
    }
    proof {
        assert(key@ =~= manifest_key(bv));
    }
    key
}

/// The 16-byte IV for a build version, a record count and the digest of the
/// file name.
fn derive_iv(bv: u32, record_count: u32, digest: &[u8]) -> (r: Vec<u8>)
    requires
        digest@.len() == 20,
    ensures
        r@ == manifest_iv(bv, record_count, digest@),
{
    let step = bv.wrapping_mul(record_count) % 7;
    let mut iv: Vec<u8> = Vec::new();
    let mut kidx: u32 = *array_index_get(&KEYTABLE, (bv % 512) as usize) as u32;
    proof {
        let b = bv;
        assert(b & 0x1FF == b % 512) by (bit_vector);
    }
    let mut j: usize = 0;
    while j < 16
        invariant
            j <= 16,
            digest@.len() == 20,
            step == bv.wrapping_mul(record_count) % 7,
            kidx == manifest_ividx(bv, record_count, j as int),
            iv@.len() == j,
            forall|k: int| 0 <= k < j ==> #[trigger] iv@[k] == KEYTABLE@[(manifest_ividx(
                bv,
                record_count,
                k,
            ) % 512) as int] ^ digest@[(manifest_ividx(bv, record_count, k + 1).wrapping_sub(73)
                % 20) as int],
        decreases 16 - j,
    {
        let t = *array_index_get(&KEYTABLE, (kidx % 512) as usize);
        kidx = kidx.wrapping_add(step);
        let x = byte_at(digest, (kidx.wrapping_sub(73) % 20) as usize);
        iv.push(t ^ x);
        j = j + 1;
    }
    proof {
        assert(iv@ =~= manifest_iv(bv, record_count, digest@));
    }
    iv
}

/// Decrypt a content manifest body. The four tag bytes in front of the
/// ciphertext are skipped; the rest must be whole cipher blocks, and the
/// plaintext is exactly as long. The key depends on the build version alone;
/// the IV also folds in the asset count and the SHA-1 digest of the logical
/// file name, so only the name the manifest was encrypted under recovers the
/// plaintext.
pub fn decrypt_cmf(file_name: &str, header: &ContentManifestHeader, data: &[u8]) -> (r: Vec<u8>)
    requires
        data@.len() >= 4,
        (data@.len() - 4) % 16 == 0,
    ensures
        r@ == aes256_cbc_plain(
            manifest_key(header.build_version),
            manifest_iv(header.build_version, header.asset_count, sha1_of(file_name@)),
            data@.subrange(4, data@.len() as int),
        ),
        r@.len() == data@.len() - 4,
{
    proof {
        lemma_slice_len(data);
    }
    let digest = sha1_digest(file_name);
    let key = derive_key(header.build_version);
    let iv = derive_iv(header.build_version, header.asset_count, digest.as_slice());
    let body = slice_subrange(data, 4, data.len());
    aes256_cbc_decrypt(key.as_slice(), iv.as_slice(), body)
}

/// Decrypt a resource graph body: the same derivation as a content manifest,
/// keyed by the graph's skin count.
pub fn decrypt_trg(file_name: &str, header: &ResourceGraphHeader, data: &[u8]) -> (r: Vec<u8>)
    requires
        data@.len() >= 4,
        (data@.len() - 4) % 16 == 0,
    ensures
        r@ == aes256_cbc_plain(
            manifest_key(header.build_version),
            manifest_iv(header.build_version, header.skin_count, sha1_of(file_name@)),
            data@.subrange(4, data@.len() as int),
        ),
        r@.len() == data@.len() - 4,
{
    proof {
        lemma_slice_len(data);
    }
    let digest = sha1_digest(file_name);
    let key = derive_key(header.build_version);
    let iv = derive_iv(header.build_version, header.skin_count, digest.as_slice());
    let body = slice_subrange(data, 4, data.len());
    aes256_cbc_decrypt(key.as_slice(), iv.as_slice(), body)
}

/// The header fields denoted by 44 little-endian bytes at `pos`.
pub open spec fn spec_cmf_header(d: Seq<u8>, pos: int) -> ContentManifestHeader {
    ContentManifestHeader {
        build_version: le_val(d, pos, 4) as u32,
        u0: le_val(d, pos + 4, 4) as u32,
        u1: le_val(d, pos + 8, 4) as u32,
        u2: le_val(d, pos + 12, 4) as u32,
        u3: le_val(d, pos + 16, 4) as u32,
        u4: le_val(d, pos + 20, 4) as u32,
        u5: le_val(d, pos + 24, 4) as u32,
        asset_patch_record_count: le_val(d, pos + 28, 4) as u32,
        asset_count: le_val(d, pos + 32, 4) as u32,
        entry_patch_record_count: le_val(d, pos + 36, 4) as u32,
        entry_count: le_val(d, pos + 40, 4) as u32,
    }
}

impl ContentManifestHeader {
    /// Parse the 44-byte manifest head at `pos`.
    pub fn read_from(d: &[u8], pos: usize) -> (r: ContentManifestHeader)
        requires
            pos + 44 <= d@.len(),
        ensures
            r == spec_cmf_header(d@, pos as int),
    {
        proof {
            lemma_slice_len(d);
        }
        ContentManifestHeader {
            build_version: read_u32_le(d, pos),
            u0: read_u32_le(d, pos + 4),
            u1: read_u32_le(d, pos + 8),
            u2: read_u32_le(d, pos + 12),
            u3: read_u32_le(d, pos + 16),
            u4: read_u32_le(d, pos + 20),
            u5: read_u32_le(d, pos + 24),
            asset_patch_record_count: read_u32_le(d, pos + 28),
            asset_count: read_u32_le(d, pos + 32),
            entry_patch_record_count: read_u32_le(d, pos + 36),
            entry_count: read_u32_le(d, pos + 40),
        }
    }
}

/// The entry record denoted by 20 little-endian bytes at `pos`.
pub open spec fn spec_cmf_entry(d: Seq<u8>, pos: int) -> ContentManifestEntry {
    ContentManifestEntry {
        index: le_val(d, pos, 4) as u32,
        hash_a: le_val(d, pos + 4, 8) as u64,
        hash_b: le_val(d, pos + 12, 8) as u64,
    }
}

impl ContentManifestEntry {
    /// Parse the 20-byte entry record at `pos`.
    pub fn read_from(d: &[u8], pos: usize) -> (r: ContentManifestEntry)
        requires
            pos + 20 <= d@.len(),
        ensures
            r == spec_cmf_entry(d@, pos as int),
    {
        proof {
            lemma_slice_len(d);
            lemma_le_val_bound(d@, pos + 4, 8);
            lemma_le_val_bound(d@, pos + 12, 8);
            lemma_pow256_words();
        }
        ContentManifestEntry {
            index: read_u32_le(d, pos),
            hash_a: read_u64_le(d, pos + 4),
            hash_b: read_u64_le(d, pos + 12),
        }
    }

    /// Parse a flat run of `count` entry records at `pos`.
    pub fn read_all(d: &[u8], pos: usize, count: usize) -> (r: Vec<ContentManifestEntry>)
        requires
            pos + count * 20 <= d@.len(),
        ensures
            r@.len() == count,
            forall|i: int| 0 <= i < count ==> #[trigger] r@[i] == spec_cmf_entry(
                d@,
                pos + i * 20,
            ),
    {
        proof {
            lemma_slice_len(d);
        }
        let mut out: Vec<ContentManifestEntry> = Vec::new();
        let mut i: usize = 0;
        while i < count
            invariant
                i <= count,
                d@.len() <= usize::MAX,
                pos + count * 20 <= d@.len(),
                out@.len() == i,
                forall|k: int| 0 <= k < i ==> #[trigger] out@[k] == spec_cmf_entry(
                    d@,
                    pos + k * 20,
                ),
            decreases count - i,
        {
            proof {
                vstd::arithmetic::mul::lemma_mul_inequality(i as int, count as int, 20);
                vstd::arithmetic::mul::lemma_mul_inequality(i + 1, count as int, 20);
                vstd::arithmetic::mul::lemma_mul_nonnegative(i as int, 20);
                assert((i + 1) * 20 == i * 20 + 20) by (nonlinear_arith);
            }
            out.push(ContentManifestEntry::read_from(d, pos + i * 20));
            i = i + 1;
        }
        out
    }
}

/// The asset record denoted by 29 little-endian bytes at `pos`.
pub open spec fn spec_cmf_asset(d: Seq<u8>, pos: int) -> ContentManifestAssetModel {
    ContentManifestAssetModel {
        guid: le_val(d, pos, 8) as u64,
        size: le_val(d, pos + 8, 4) as u32,
        unknown_0c: d[pos + 12],
        md5: d.subrange(pos + 13, pos + 29),
    }
}

impl ContentManifestAsset {
    /// Parse the 29-byte asset record at `pos`.
    pub fn read_from(d: &[u8], pos: usize) -> (r: ContentManifestAsset)
        requires
            pos + 29 <= d@.len(),
        ensures
            r@ == spec_cmf_asset(d@, pos as int),
    {
        proof {
            lemma_slice_len(d);
            lemma_le_val_bound(d@, pos as int, 8);
            lemma_pow256_words();
        }
        ContentManifestAsset {
            guid: read_u64_le(d, pos),
            size: read_u32_le(d, pos + 8),
            unknown_0c: byte_at(d, pos + 12),
            md5: slice_to_vec(slice_subrange(d, pos + 13, pos + 29)),
        }
    }

    /// Parse a flat run of `count` asset records at `pos`.
    pub fn read_all(d: &[u8], pos: usize, count: usize) -> (r: Vec<ContentManifestAsset>)
        requires
            pos + count * 29 <= d@.len(),
        ensures
            r@.len() == count,
            forall|i: int| 0 <= i < count ==> (#[trigger] r@[i])@ == spec_cmf_asset(
                d@,
                pos + i * 29,
            ),
    {
        proof {
            lemma_slice_len(d);
        }
        let mut out: Vec<ContentManifestAsset> = Vec::new();
        let mut i: usize = 0;
        while i < count
            invariant
                i <= count,
                d@.len() <= usize::MAX,
                pos + count * 29 <= d@.len(),
                out@.len() == i,
                forall|k: int| 0 <= k < i ==> (#[trigger] out@[k])@ == spec_cmf_asset(
                    d@,
                    pos + k * 29,
                ),
            decreases count - i,
        {
            proof {
                vstd::arithmetic::mul::lemma_mul_inequality(i as int, count as int, 29);
                vstd::arithmetic::mul::lemma_mul_inequality(i + 1, count as int, 29);
                vstd::arithmetic::mul::lemma_mul_nonnegative(i as int, 29);
                assert((i + 1) * 29 == i * 29 + 29) by (nonlinear_arith);
            }
            out.push(ContentManifestAsset::read_from(d, pos + i * 29));
            i = i + 1;
        }
        out
    }
}

} // verus!
