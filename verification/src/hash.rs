//! Checksum primitives: the 32-bit noncryptographic block hash that guards
//! index headers and entry tables, and the rolling per-record checksum keyed
//! by a record's absolute position in its data file.

use vstd::prelude::*;
use crate::bytes::byte_at;
use crate::bytes::le_val;
use crate::bytes::lemma_le_val_bound;
use crate::bytes::lemma_pow256_le;
use crate::bytes::lemma_pow256_words;
use crate::bytes::lemma_slice_len;
use crate::bytes::read_uint_le;

verus! {

/// Left rotation of a 32-bit word.
pub open spec fn rot(x: u32, k: u32) -> u32
    recommends
        0 < k < 32,
{
    (x << k) | (x >> ((32 - k) as u32))
}

fn rotl(x: u32, k: u32) -> (r: u32)
    requires
        0 < k < 32,
    ensures
        r == rot(x, k),
{
    (x << k) | (x >> (32 - k))
}

/// One mixing round over the three-word internal state.
pub open spec fn mix(a0: u32, b0: u32, c0: u32) -> (u32, u32, u32) {
    let a = a0.wrapping_sub(c0) ^ rot(c0, 4);
    let c = c0.wrapping_add(b0);
    let b = b0.wrapping_sub(a) ^ rot(a, 6);
    let a = a.wrapping_add(c);
    let c = c.wrapping_sub(b) ^ rot(b, 8);
    let b = b.wrapping_add(a);
    let a = a.wrapping_sub(c) ^ rot(c, 16);
    let c = c.wrapping_add(b);
    let b = b.wrapping_sub(a) ^ rot(a, 19);
    let a = a.wrapping_add(c);
    let c = c.wrapping_sub(b) ^ rot(b, 4);
    let b = b.wrapping_add(a);
    (a, b, c)
}

/// The closing rounds applied once after the last block.
pub open spec fn fin(a0: u32, b0: u32, c0: u32) -> (u32, u32, u32) {
    let c = (c0 ^ b0).wrapping_sub(rot(b0, 14));
    let a = (a0 ^ c).wrapping_sub(rot(c, 11));
    let b = (b0 ^ a).wrapping_sub(rot(a, 25));
    let c = (c ^ b).wrapping_sub(rot(b, 16));
    let a = (a ^ c).wrapping_sub(rot(c, 4));
    let b = (b ^ a).wrapping_sub(rot(a, 14));
    let c = (c ^ b).wrapping_sub(rot(b, 24));
    (a, b, c)
}

fn mix_exec(a0: u32, b0: u32, c0: u32) -> (r: (u32, u32, u32))
    ensures
        r == mix(a0, b0, c0),
{
    let a = a0.wrapping_sub(c0) ^ rotl(c0, 4);
    let c = c0.wrapping_add(b0);
    let b = b0.wrapping_sub(a) ^ rotl(a, 6);
    let a = a.wrapping_add(c);
    let c = c.wrapping_sub(b) ^ rotl(b, 8);
    let b = b.wrapping_add(a);
    let a = a.wrapping_sub(c) ^ rotl(c, 16);
    let c = c.wrapping_add(b);
    let b = b.wrapping_sub(a) ^ rotl(a, 19);
    let a = a.wrapping_add(c);
    let c = c.wrapping_sub(b) ^ rotl(b, 4);
    let b = b.wrapping_add(a);
    (a, b, c)
}

fn fin_exec(a0: u32, b0: u32, c0: u32) -> (r: (u32, u32, u32))
    ensures
        r == fin(a0, b0, c0),
{
    let c = (c0 ^ b0).wrapping_sub(rotl(b0, 14));
    let a = (a0 ^ c).wrapping_sub(rotl(c, 11));
    let b = (b0 ^ a).wrapping_sub(rotl(a, 25));
    let c = (c ^ b).wrapping_sub(rotl(b, 16));
    let a = (a ^ c).wrapping_sub(rotl(c, 4));
    let b = (b ^ a).wrapping_sub(rotl(a, 14));
    let c = (c ^ b).wrapping_sub(rotl(b, 24));
    (a, b, c)
}

/// At most `n` of the bytes at `i`, little-endian, zero-extended to a word;
/// `n` is clipped to `0..=4`.
pub open spec fn word_at(s: Seq<u8>, i: int, n: int) -> u32 {
    le_val(s, i, clip4(n)) as u32
}

pub open spec fn clip4(n: int) -> int {
    if n <= 0 {
        0
    } else if n >= 4 {
        4
    } else {
        n
    }
}

/// The hash of the bytes of `s` from `pos` on, given the running state; the
/// input is consumed in 12-byte blocks, and the final partial block (if the
/// input was not empty) is zero-extended and closed with `fin`.
pub open spec fn hash_from(s: Seq<u8>, pos: int, a: u32, b: u32, c: u32) -> u32
    recommends
        0 <= pos <= s.len(),
    decreases s.len() - pos,
{
    if s.len() - pos > 12 {
        let t = mix(
            a.wrapping_add(word_at(s, pos, 4)),
            b.wrapping_add(word_at(s, pos + 4, 4)),
            c.wrapping_add(word_at(s, pos + 8, 4)),
        );
        hash_from(s, pos + 12, t.0, t.1, t.2)
    } else if s.len() == pos {
        c
    } else {
        let rem = s.len() - pos;
        let t = fin(
            a.wrapping_add(word_at(s, pos, rem)),
            b.wrapping_add(word_at(s, pos + 4, rem - 4)),
            c.wrapping_add(word_at(s, pos + 8, rem - 8)),
        );
        t.2
    }
}

/// The 32-bit block hash of `s` under the given seed.
pub open spec fn spec_hash32_seeded(s: Seq<u8>, seed: u32) -> u32 {
    let init = 0xdeadbeefu32.wrapping_add(s.len() as u32).wrapping_add(seed);
    hash_from(s, 0, init, init, init)
}

pub open spec fn spec_hash32(s: Seq<u8>) -> u32 {
    spec_hash32_seeded(s, 0)
}

/// An up-to-4-byte little-endian word, zero-extended.
fn read_word(d: &[u8], pos: usize, n: usize) -> (r: u32)
    requires
        n <= 4,
        pos + n <= d@.len(),
    ensures
        r == word_at(d@, pos as int, n as int),
{
    proof {
        lemma_le_val_bound(d@, pos as int, n as int);
        lemma_pow256_le(n as int, 4);
        lemma_pow256_words();
    }
    let v = read_uint_le(d, pos, n);
    v as u32
}

/// The 32-bit block hash of `data` under the given seed.
pub fn hash32_with_seed(data: &[u8], seed: u32) -> (r: u32)
    ensures
        r == spec_hash32_seeded(data@, seed),
{
    proof {
        lemma_slice_len(data);
    }
    let len = data.len();
    let init = 0xDEAD_BEEFu32.wrapping_add(len as u32).wrapping_add(seed);
    let mut a = init;
    let mut b = init;
    let mut c = init;
    let mut pos: usize = 0;
    while len - pos > 12
        invariant
            pos <= len,
            len == data@.len(),
            hash_from(data@, pos as int, a, b, c) == hash_from(data@, 0, init, init, init),
        decreases len - pos,
    {
        let a1 = a.wrapping_add(read_word(data, pos, 4));
        let b1 = b.wrapping_add(read_word(data, pos + 4, 4));
        let c1 = c.wrapping_add(read_word(data, pos + 8, 4));
        let t = mix_exec(a1, b1, c1);
        proof {
            assert(hash_from(data@, pos as int, a, b, c) == hash_from(
                data@,
                pos + 12,
                mix(a1, b1, c1).0,
                mix(a1, b1, c1).1,
                mix(a1, b1, c1).2,
            ));
        }
        a = t.0;
        b = t.1;
        c = t.2;
        pos = pos + 12;
    }
    if pos == len {
        return c;
    }
    let rem = len - pos;
    let n1 = if rem >= 4 { 4 } else { rem };
    let a1 = a.wrapping_add(read_word(data, pos, n1));
    let n2 = if rem >= 8 { 4 } else if rem > 4 { rem - 4 } else { 0 };
    let b1 = if n2 == 0 { b } else { b.wrapping_add(read_word(data, pos + 4, n2)) };
    let n3 = if rem >= 12 { 4 } else if rem > 8 { rem - 8 } else { 0 };
    let c1 = if n3 == 0 { c } else { c.wrapping_add(read_word(data, pos + 8, n3)) };
    proof {
        assert(le_val(data@, pos as int, 0) == 0);
        assert(b.wrapping_add(0u32) == b);
        assert(c.wrapping_add(0u32) == c);
    }
    let t = fin_exec(a1, b1, c1);
    t.2
}

/// On an empty input the hash is the initial state itself: the published
/// constant plus the seed, wrapping. In particular the record seed gives
/// 0x1C19A860 and seed zero gives 0xDEADBEEF.
pub proof fn lemma_hash32_empty(seed: u32)
    ensures
        spec_hash32_seeded(Seq::empty(), seed) == 0xdeadbeefu32.wrapping_add(seed),
        spec_hash32_seeded(Seq::empty(), 0x3D6BE971) == 0x1C19A860,
        spec_hash32(Seq::empty()) == 0xDEADBEEF,
{
    assert(Seq::<u8>::empty().len() as u32 == 0);
    assert(0xdeadbeefu32.wrapping_add(0u32) == 0xdeadbeefu32);
}

/// The 32-bit block hash of `data` with seed zero.
pub fn hash32(data: &[u8]) -> (r: u32)
    ensures
        r == spec_hash32(data@),
{
    hash32_with_seed(data, 0)
}

/// The static table that keys a record checksum to its file position.
pub const OFFSET_ENCODE_TABLE: [u32; 16] = [
    0x049396B8, 0x72A82A9B, 0xEE626CCA, 0x9917754F, 0x15DE40B1, 0xF5A8A9B6, 0x421EAC7E, 0xA9D55C9A,
    0x317FD40C, 0x04FAF80D, 0x3D6BE971, 0x52933CFD, 0x27F64B7D, 0xC6F5C11B, 0xD5757E3A, 0x6C388745,
];

/// The accumulator slot `j` after folding the first `n` bytes of a record
/// prefix that starts at absolute position `off`: each byte lands in the slot
/// given by its absolute position modulo 4.
pub open spec fn slot_xor(s: Seq<u8>, off: u32, n: int, j: int) -> u8
    recommends
        0 <= j < 4,
        n <= s.len(),
        off + n <= u32::MAX,
    decreases n,
{
    if n <= 0 {
        0
    } else {
        let prev = slot_xor(s, off, n - 1, j);
        if (off + n - 1) % 4 == j {
            prev ^ s[n - 1]
        } else {
            prev
        }
    }
}

/// Byte `j` of a word, counting from the least significant.
pub open spec fn u32_byte(x: u32, j: int) -> u8
    recommends
        0 <= j < 4,
{
    ((x >> ((8 * j) as u32)) & 0xFF) as u8
}

/// The position key folded over the checksum: a table entry selected by the
/// position just past the prefix, XORed with that position.
pub open spec fn offset_encoded(co: u32) -> u32
    recommends
        co + 4 <= u32::MAX,
{
    OFFSET_ENCODE_TABLE@[(co + 4) % 16] ^ ((co + 4) as u32)
}

/// The per-record checksum of the prefix `s` of a record that starts at
/// absolute position `off` in its data file.
pub open spec fn spec_record_checksum(s: Seq<u8>, off: u32) -> u32
    recommends
        off + s.len() + 4 <= u32::MAX,
{
    let co = (off + s.len()) as u32;
    let e = offset_encoded(co);
    let b0 = slot_xor(s, off, s.len() as int, (co as int) % 4) ^ u32_byte(e, (co as int) % 4);
    let b1 = slot_xor(s, off, s.len() as int, (co + 1) % 4) ^ u32_byte(e, (co + 1) % 4);
    let b2 = slot_xor(s, off, s.len() as int, (co + 2) % 4) ^ u32_byte(e, (co + 2) % 4);
    let b3 = slot_xor(s, off, s.len() as int, (co + 3) % 4) ^ u32_byte(e, (co + 3) % 4);
    (b0 + 0x100 * b1 + 0x1_0000 * b2 + 0x100_0000 * b3) as u32
}

/// The per-record checksum over `data`, the record prefix that starts at
/// absolute position `off` in its data file.
pub fn record_checksum(data: &[u8], off: u32) -> (r: u32)
    requires
        off + data@.len() + 4 <= u32::MAX,
    ensures
        r == spec_record_checksum(data@, off),
{
    let len = data.len();
    let mut h0: u8 = 0;
    let mut h1: u8 = 0;
    let mut h2: u8 = 0;
    let mut h3: u8 = 0;
    let mut k: usize = 0;
    while k < len
        invariant
            k <= len,
            len == data@.len(),
            off + len + 4 <= u32::MAX,
            h0 == slot_xor(data@, off, k as int, 0),
            h1 == slot_xor(data@, off, k as int, 1),
            h2 == slot_xor(data@, off, k as int, 2),
            h3 == slot_xor(data@, off, k as int, 3),
        decreases len - k,
    {
        let slot = (off + k as u32) % 4;
        let byte = byte_at(data, k);
        if slot == 0 {
            h0 = h0 ^ byte;
        } else if slot == 1 {
            h1 = h1 ^ byte;
        } else if slot == 2 {
            h2 = h2 ^ byte;
        } else {
            h3 = h3 ^ byte;
        }
        k = k + 1;
    }
    let co = off + len as u32;
    let e = offset_encode(co);
    let b0 = pick(h0, h1, h2, h3, co % 4) ^ word_byte(e, co % 4);
    let b1 = pick(h0, h1, h2, h3, (co + 1) % 4) ^ word_byte(e, (co + 1) % 4);
    let b2 = pick(h0, h1, h2, h3, (co + 2) % 4) ^ word_byte(e, (co + 2) % 4);
    let b3 = pick(h0, h1, h2, h3, (co + 3) % 4) ^ word_byte(e, (co + 3) % 4);
    b0 as u32 + 0x100 * (b1 as u32) + 0x1_0000 * (b2 as u32) + 0x100_0000 * (b3 as u32)
}

/// The table entry keyed to the position just past a record prefix.
fn offset_encode(co: u32) -> (r: u32)
    requires
        co + 4 <= u32::MAX,
    ensures
        r == offset_encoded(co),
{
    OFFSET_ENCODE_TABLE[((co + 4) % 16) as usize] ^ (co + 4)
}

fn word_byte(x: u32, j: u32) -> (r: u8)
    requires
        j < 4,
    ensures
        r == u32_byte(x, j as int),
{
    ((x >> (8 * j)) & 0xFF) as u8
}

fn pick(h0: u8, h1: u8, h2: u8, h3: u8, j: u32) -> (r: u8)
    requires
        j < 4,
    ensures
        j == 0 ==> r == h0,
        j == 1 ==> r == h1,
        j == 2 ==> r == h2,
        j == 3 ==> r == h3,
{
    if j == 0 {
        h0
    } else if j == 1 {
        h1
    } else if j == 2 {
        h2
    } else {
        h3
    }
}

} // verus!
