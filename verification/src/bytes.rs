//! Fixed-width integer fields read out of raw byte slices, in both byte
//! orders, with spec-level definitions of the values they denote.

use vstd::prelude::*;

verus! {

/// Value of the `n` bytes of `s` starting at `i`, least-significant byte
/// first.
pub open spec fn le_val(s: Seq<u8>, i: int, n: int) -> int
    decreases n,
{
    if n <= 0 {
        0
    } else {
        s[i] + 0x100 * le_val(s, i + 1, n - 1)
    }
}

/// Value of the `n` bytes of `s` starting at `i`, most-significant byte
/// first.
pub open spec fn be_val(s: Seq<u8>, i: int, n: int) -> int
    decreases n,
{
    if n <= 0 {
        0
    } else {
        be_val(s, i, n - 1) * 0x100 + s[i + n - 1]
    }
}

/// 256 raised to `n`: the exclusive upper bound of an `n`-byte value.
pub open spec fn pow256(n: int) -> int
    decreases n,
{
    if n <= 0 {
        1
    } else {
        0x100 * pow256(n - 1)
    }
}

pub proof fn lemma_le_val_bound(s: Seq<u8>, i: int, n: int)
    ensures
        0 <= le_val(s, i, n) < pow256(n),
    decreases n,
{
    if n > 0 {
        lemma_le_val_bound(s, i + 1, n - 1);
    }
}

pub proof fn lemma_be_val_bound(s: Seq<u8>, i: int, n: int)
    ensures
        0 <= be_val(s, i, n) < pow256(n),
    decreases n,
{
    if n > 0 {
        lemma_be_val_bound(s, i, n - 1);
    }
}

/// `le_val` of one more byte appends that byte at the most-significant end.
pub proof fn lemma_le_val_snoc(s: Seq<u8>, i: int, n: int)
    requires
        0 <= n,
    ensures
        le_val(s, i, n + 1) == le_val(s, i, n) + s[i + n] * pow256(n),
    decreases n,
{
    if n > 0 {
        lemma_le_val_snoc(s, i + 1, n - 1);
        let a = s[i + n];
        let p = pow256(n - 1);
        assert(le_val(s, i, n + 1) == s[i] + 0x100 * le_val(s, i + 1, n));
        assert(le_val(s, i, n) == s[i] + 0x100 * le_val(s, i + 1, n - 1));
        assert(le_val(s, i + 1, n) == le_val(s, i + 1, n - 1) + a * p);
        assert(pow256(n) == 0x100 * pow256(n - 1));
        assert(0x100 * (a * p) == a * (0x100 * p)) by (nonlinear_arith);
        assert(le_val(s, i, n + 1) == le_val(s, i, n) + a * (0x100 * p));
    } else {
        assert(le_val(s, i + 1, 0) == 0);
        assert(le_val(s, i, 1) == s[i] + 0x100 * le_val(s, i + 1, 0));
        assert(pow256(0) == 1);
    }
}

/// A slice never holds more than `usize::MAX` elements.
pub proof fn lemma_slice_len<T>(d: &[T])
    ensures
        d@.len() <= usize::MAX,
{
    vstd::slice::axiom_spec_len::<T>(d);
}

/// The index of the first NUL at or after `i`, or the length of `s` if there
/// is none.
pub open spec fn first_nul(s: Seq<u8>, i: int) -> int
    recommends
        0 <= i <= s.len(),
    decreases s.len() - i,
{
    if i < 0 || i >= s.len() {
        i
    } else if s[i] == 0 {
        i
    } else {
        first_nul(s, i + 1)
    }
}

pub proof fn lemma_first_nul(s: Seq<u8>, i: int, k: int)
    requires
        0 <= i <= k <= s.len(),
        forall|j: int| i <= j < k ==> s[j] != 0,
        k == s.len() || s[k] == 0,
    ensures
        first_nul(s, i) == k,
    decreases k - i,
{
    if i < k {
        lemma_first_nul(s, i + 1, k);
    }
}

/// `first_nul` never looks back, and never runs past the end.
pub proof fn lemma_first_nul_range(s: Seq<u8>, i: int)
    requires
        0 <= i <= s.len(),
    ensures
        i <= first_nul(s, i) <= s.len(),
    decreases s.len() - i,
{
    if i < s.len() && s[i] != 0 {
        lemma_first_nul_range(s, i + 1);
    }
}

/// Whether two byte slices hold the same bytes.
pub fn slices_eq(a: &[u8], b: &[u8]) -> (r: bool)
    ensures
        r == (a@ == b@),
{
    if a.len() != b.len() {
        return false;
    }
    let n = a.len();
    let mut i: usize = 0;
    while i < n
        invariant
            i <= n,
            n == a@.len(),
            n == b@.len(),
            forall|j: int| 0 <= j < i ==> a@[j] == b@[j],
        decreases n - i,
    {
        if byte_at(a, i) != byte_at(b, i) {
            return false;
        }
        i = i + 1;
    }
    proof {
        assert(a@ =~= b@);
    }
    true
}

/// The byte at index `i`, as a checked slice read.
pub fn byte_at(d: &[u8], i: usize) -> (r: u8)
    requires
        i < d@.len(),
    ensures
        r == d@[i as int],
{
    *vstd::slice::slice_index_get(d, i)
}

pub fn read_u16_le(d: &[u8], pos: usize) -> (r: u16)
    requires
        pos + 2 <= d@.len(),
    ensures
        r == le_val(d@, pos as int, 2),
{
    proof {
        lemma_slice_len(d);
        reveal_with_fuel(le_val, 3);
        lemma_le_val_bound(d@, pos as int, 2);
    }
    let b0 = byte_at(d, pos) as u16;
    let b1 = byte_at(d, pos + 1) as u16;
    b0 + 0x100 * b1
}

pub fn read_u32_le(d: &[u8], pos: usize) -> (r: u32)
    requires
        pos + 4 <= d@.len(),
    ensures
        r == le_val(d@, pos as int, 4),
{
    proof {
        lemma_slice_len(d);
        reveal_with_fuel(le_val, 5);
        lemma_le_val_bound(d@, pos as int, 4);
    }
    let b0 = byte_at(d, pos) as u32;
    let b1 = byte_at(d, pos + 1) as u32;
    let b2 = byte_at(d, pos + 2) as u32;
    let b3 = byte_at(d, pos + 3) as u32;
    b0 + 0x100 * (b1 + 0x100 * (b2 + 0x100 * b3))
}

pub fn read_u64_le(d: &[u8], pos: usize) -> (r: u64)
    requires
        pos + 8 <= d@.len(),
    ensures
        r == le_val(d@, pos as int, 8),
{
    proof {
        lemma_slice_len(d);
    }
    let lo = read_u32_le(d, pos) as u64;
    let hi = read_u32_le(d, pos + 4) as u64;
    proof {
        lemma_le_val_split(d@, pos as int, 4, 4);
        lemma_pow256_words();
        lemma_le_val_bound(d@, pos as int, 4);
        lemma_le_val_bound(d@, pos + 4, 4);
    }
    lo + 0x1_0000_0000 * hi
}

/// A little-endian value splits at any byte boundary.
pub proof fn lemma_le_val_split(s: Seq<u8>, i: int, n: int, m: int)
    requires
        0 <= n,
        0 <= m,
    ensures
        le_val(s, i, n + m) == le_val(s, i, n) + pow256(n) * le_val(s, i + n, m),
    decreases n,
{
    if n > 0 {
        lemma_le_val_split(s, i + 1, n - 1, m);
        let p = pow256(n - 1);
        let v = le_val(s, i + n, m);
        assert(0x100 * (p * v) == (0x100 * p) * v) by (nonlinear_arith);
    }
}

pub fn read_u16_be(d: &[u8], pos: usize) -> (r: u16)
    requires
        pos + 2 <= d@.len(),
    ensures
        r == be_val(d@, pos as int, 2),
{
    proof {
        lemma_slice_len(d);
        reveal_with_fuel(be_val, 3);
        lemma_be_val_bound(d@, pos as int, 2);
    }
    let b0 = byte_at(d, pos) as u16;
    let b1 = byte_at(d, pos + 1) as u16;
    b0 * 0x100 + b1
}

pub fn read_u24_be(d: &[u8], pos: usize) -> (r: u32)
    requires
        pos + 3 <= d@.len(),
    ensures
        r == be_val(d@, pos as int, 3),
{
    proof {
        lemma_slice_len(d);
        reveal_with_fuel(be_val, 4);
        lemma_be_val_bound(d@, pos as int, 3);
    }
    let b0 = byte_at(d, pos) as u32;
    let b1 = byte_at(d, pos + 1) as u32;
    let b2 = byte_at(d, pos + 2) as u32;
    (b0 * 0x100 + b1) * 0x100 + b2
}

pub fn read_u32_be(d: &[u8], pos: usize) -> (r: u32)
    requires
        pos + 4 <= d@.len(),
    ensures
        r == be_val(d@, pos as int, 4),
{
    proof {
        lemma_slice_len(d);
        reveal_with_fuel(be_val, 5);
        lemma_be_val_bound(d@, pos as int, 4);
    }
    let b0 = byte_at(d, pos) as u32;
    let b1 = byte_at(d, pos + 1) as u32;
    let b2 = byte_at(d, pos + 2) as u32;
    let b3 = byte_at(d, pos + 3) as u32;
    ((b0 * 0x100 + b1) * 0x100 + b2) * 0x100 + b3
}

/// A big-endian unsigned value of `n` bytes, `n` at most 8.
pub fn read_uint_be(d: &[u8], pos: usize, n: usize) -> (r: u64)
    requires
        n <= 8,
        pos + n <= d@.len(),
    ensures
        r == be_val(d@, pos as int, n as int),
{
    proof {
        lemma_slice_len(d);
    }
    let mut r: u64 = 0;
    let mut k: usize = 0;
    while k < n
        invariant
            k <= n,
            n <= 8,
            pos + n <= d@.len(),
            r == be_val(d@, pos as int, k as int),
            r < pow256(k as int),
        decreases n - k,
    {
        proof {
            lemma_slice_len(d);
            lemma_pow256_le(k + 1, 8);
            lemma_pow256_words();
        }
        r = r * 0x100 + byte_at(d, pos + k) as u64;
        k = k + 1;
    }
    r
}

/// A little-endian unsigned value of `n` bytes, `n` at most 8.
pub fn read_uint_le(d: &[u8], pos: usize, n: usize) -> (r: u64)
    requires
        n <= 8,
        pos + n <= d@.len(),
    ensures
        r == le_val(d@, pos as int, n as int),
{
    proof {
        lemma_slice_len(d);
    }
    let mut r: u64 = 0;
    let mut k: usize = 0;
    while k < n
        invariant
            k <= n,
            n <= 8,
            pos + n <= d@.len(),
            r == le_val(d@, pos as int, k as int),
            r < pow256(k as int),
        decreases n - k,
    {
        proof {
            lemma_slice_len(d);
            lemma_pow256_le(k as int, 7);
            lemma_pow256_le(k + 1, 8);
            lemma_pow256_words();
            lemma_le_val_snoc(d@, pos as int, k as int);
            lemma_le_val_bound(d@, pos as int, k + 1);
        }
        r = r + (byte_at(d, pos + k) as u64) * pow256_u64(k);
        k = k + 1;
    }
    r
}

/// `pow256` is at least 1 and monotone.
pub proof fn lemma_pow256_le(n: int, m: int)
    requires
        n <= m,
    ensures
        1 <= pow256(n) <= pow256(m),
    decreases m - n,
{
    if n < m {
        lemma_pow256_le(n, m - 1);
        lemma_pow256_pos(m - 1);
    } else {
        lemma_pow256_pos(n);
    }
}

pub proof fn lemma_pow256_pos(n: int)
    ensures
        1 <= pow256(n),
    decreases n,
{
    if n > 0 {
        lemma_pow256_pos(n - 1);
    }
}

/// The exact value of `pow256` at the machine-word width.
pub proof fn lemma_pow256_words()
    ensures
        pow256(8) == 0x1_0000_0000_0000_0000,
        pow256(4) == 0x1_0000_0000,
{
    reveal_with_fuel(pow256, 9);
}

/// 256 raised to `k` as a machine word, `k` at most 7.
pub fn pow256_u64(k: usize) -> (r: u64)
    requires
        k <= 7,
    ensures
        r == pow256(k as int),
{
    let mut r: u64 = 1;
    let mut j: usize = 0;
    while j < k
        invariant
            j <= k,
            k <= 7,
            r == pow256(j as int),
        decreases k - j,
    {
        proof {
            lemma_pow256_le(j + 1, 7);
            lemma_pow256_words();
        }
        r = r * 0x100;
        j = j + 1;
    }
    r
}

} // verus!
