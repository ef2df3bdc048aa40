//! The chunked record container wrapping every stored blob: a global header,
//! one descriptor per chunk carrying its encoded size, content size and MD5,
//! then the chunk bodies. Each body is MD5-checked and decoded on its own —
//! kept verbatim or inflated — and the results are concatenated in chunk
//! order. A chunk whose decoded length differs from its declared content size
//! is rejected, so a decoded container is always exactly as long as the sum
//! of its declared content sizes. The head's flag byte must carry its one
//! known value and the declared header size must equal the descriptor table
//! it announces: both gates come from the strictest variant of this format's
//! readers, adopted here over the lax one that ignored those fields.

use vstd::prelude::*;
use crate::bytes::be_val;
use crate::bytes::byte_at;
use crate::bytes::lemma_slice_len;
use crate::bytes::read_u24_be;
use crate::bytes::read_u32_be;
use crate::bytes::slices_eq;
use crate::crypto::md5_digest;
use crate::crypto::md5_of;
use vstd::slice::slice_subrange;
use vstd::slice::slice_to_vec;

verus! {

/// Why a container was rejected: the magic is wrong, a chunk declares an
/// encoding mode the decoder does not know, or a size or digest does not
/// match the data.
#[derive(Clone, Copy, PartialEq, Eq, Structural, Debug)]
pub enum BlteError {
    Unsupported,
    UnknownEncodingMode(char),
    IntegrityError,
}

/// What a zlib stream inflates to, or `None` when the bytes are not a valid
/// stream.
pub uninterp spec fn inflated(b: Seq<u8>) -> Option<Seq<u8>>;

/// Relies on flate2's `ZlibDecoder` over a byte slice, read to the stream's
/// end: the outcome depends on the input bytes alone.
#[verifier::external_body]
fn zlib_inflate(data: &[u8]) -> (r: Option<Vec<u8>>)
    ensures
        match r {
            Some(v) => inflated(data@) == Some(v@),
            None => inflated(data@) is None,
        },
{
    let mut out = Vec::new();
    match std::io::Read::read_to_end(&mut flate2::read::ZlibDecoder::new(data), &mut out) {
        Ok(_) => Some(out),
        Err(_) => None,
    }
}

/// The container starts with the four magic bytes.
pub open spec fn blte_magic_ok(b: Seq<u8>) -> bool {
    b.len() >= 12 && b[0] == 0x42u8 && b[1] == 0x4Cu8 && b[2] == 0x54u8 && b[3] == 0x45u8
}

/// The declared number of chunks: a 24-bit big-endian count.
pub open spec fn chunk_count(b: Seq<u8>) -> int {
    be_val(b, 9, 3)
}

/// The bytes the fixed head and the chunk descriptors occupy.
pub open spec fn header_size(b: Seq<u8>) -> int {
    12 + 24 * chunk_count(b)
}

pub open spec fn chunk_encoded_size(b: Seq<u8>, i: int) -> int {
    be_val(b, 12 + 24 * i, 4)
}

pub open spec fn chunk_content_size(b: Seq<u8>, i: int) -> int {
    be_val(b, 12 + 24 * i + 4, 4)
}

pub open spec fn chunk_md5(b: Seq<u8>, i: int) -> Seq<u8> {
    b.subrange(12 + 24 * i + 8, 12 + 24 * i + 24)
}

/// Where chunk `i`'s body starts: the bodies follow the descriptor table
/// back to back.
pub open spec fn chunk_start(b: Seq<u8>, i: int) -> int
    decreases i,
{
    if i <= 0 {
        header_size(b)
    } else {
        chunk_start(b, i - 1) + chunk_encoded_size(b, i - 1)
    }
}

pub open spec fn chunk_bytes(b: Seq<u8>, i: int) -> Seq<u8> {
    b.subrange(chunk_start(b, i), chunk_start(b, i) + chunk_encoded_size(b, i))
}

/// What chunk `i` contributes to the output, or why the whole decode fails
/// at this chunk: the body must lie within the input and match its declared
/// MD5; its first byte selects the mode; a verbatim chunk must declare
/// exactly its remaining bytes, and an inflated chunk must decompress to
/// exactly its declared content size.
pub open spec fn chunk_result(b: Seq<u8>, i: int) -> Result<Seq<u8>, BlteError> {
    let n = chunk_encoded_size(b, i);
    let c = chunk_bytes(b, i);
    if chunk_start(b, i) + n > b.len() {
        Err(BlteError::IntegrityError)
    } else if md5_of(c) != chunk_md5(b, i) {
        Err(BlteError::IntegrityError)
    } else if n < 1 {
        Err(BlteError::IntegrityError)
    } else if c[0] == 0x4Eu8 {
        if chunk_content_size(b, i) == n - 1 {
            Ok(c.subrange(1, n))
        } else {
            Err(BlteError::IntegrityError)
        }
    } else if c[0] == 0x5Au8 {
        match inflated(c.subrange(1, n)) {
            Some(v) => if v.len() == chunk_content_size(b, i) {
                Ok(v)
            } else {
                Err(BlteError::IntegrityError)
            },
            None => Err(BlteError::IntegrityError),
        }
    } else {
        Err(BlteError::UnknownEncodingMode(c[0] as char))
    }
}

/// The concatenated contents of the chunks from `i` on, or the error of the
/// first chunk that fails.
pub open spec fn chunks_result(b: Seq<u8>, i: int) -> Result<Seq<u8>, BlteError>
    decreases chunk_count(b) - i,
{
    if i >= chunk_count(b) {
        Ok(Seq::empty())
    } else {
        match chunk_result(b, i) {
            Ok(c) => match chunks_result(b, i + 1) {
                Ok(rest) => Ok(c + rest),
                Err(e) => Err(e),
            },
            Err(e) => Err(e),
        }
    }
}

/// What decoding a container yields: its content, or the first failure. A
/// wrong magic or flag byte is an unsupported format; a declared header size
/// that is not exactly the fixed head plus the descriptor table is an
/// integrity fault. Bytes past the last chunk's body are ignored.
pub open spec fn spec_decode(b: Seq<u8>) -> Result<Seq<u8>, BlteError> {
    if !blte_magic_ok(b) {
        Err(BlteError::Unsupported)
    } else if b[8] != 0x0Fu8 {
        Err(BlteError::Unsupported)
    } else if be_val(b, 4, 4) != header_size(b) {
        Err(BlteError::IntegrityError)
    } else if b.len() < header_size(b) {
        Err(BlteError::Unsupported)
    } else {
        chunks_result(b, 0)
    }
}

/// The sum of the declared content sizes of the chunks from `i` on.
pub open spec fn content_sum(b: Seq<u8>, i: int) -> int
    decreases chunk_count(b) - i,
{
    if i >= chunk_count(b) {
        0
    } else {
        chunk_content_size(b, i) + content_sum(b, i + 1)
    }
}

/// Every chunk body starts at or after the descriptor table.
proof fn lemma_chunk_start_bounds(b: Seq<u8>, i: int)
    requires
        0 <= i,
    ensures
        chunk_start(b, i) >= header_size(b),
    decreases i,
{
    if i > 0 {
        lemma_chunk_start_bounds(b, i - 1);
        crate::bytes::lemma_be_val_bound(b, 12 + 24 * (i - 1), 4);
    }
}

proof fn lemma_chunks_len(b: Seq<u8>, i: int)
    requires
        0 <= i,
        chunks_result(b, i) is Ok,
    ensures
        chunks_result(b, i)->Ok_0.len() == content_sum(b, i),
    decreases chunk_count(b) - i,
{
    if i < chunk_count(b) {
        lemma_chunks_len(b, i + 1);
        crate::bytes::lemma_be_val_bound(b, 9, 3);
        crate::bytes::lemma_be_val_bound(b, 12 + 24 * i, 4);
        lemma_chunk_start_bounds(b, i);
        let c = chunk_result(b, i)->Ok_0;
        assert(c.len() == chunk_content_size(b, i));
        assert(chunks_result(b, i)->Ok_0 == c + chunks_result(b, i + 1)->Ok_0);
    }
}

/// Every container the decoder accepts decodes to exactly the sum of its
/// declared per-chunk content sizes.
pub proof fn lemma_decode_len(b: Seq<u8>)
    requires
        spec_decode(b) is Ok,
    ensures
        spec_decode(b)->Ok_0.len() == content_sum(b, 0),
{
    lemma_chunks_len(b, 0);
}

/// The chunked container.
pub struct Blte;

impl Blte {
    /// Decode a container. Fails with `Unsupported` if the magic or the
    /// flag byte is wrong or the declared descriptor table does not fit,
    /// `UnknownEncodingMode` if a chunk's first byte is neither of the two
    /// known modes, and `IntegrityError` if the declared header size does
    /// not match the chunk count, or a chunk's body is truncated, fails its
    /// MD5, or decodes to other than its declared content size.
    pub fn read_from(data: &[u8]) -> (r: Result<Vec<u8>, BlteError>)
        ensures
            match r {
                Ok(v) => spec_decode(data@) == Ok::<Seq<u8>, BlteError>(v@),
                Err(e) => spec_decode(data@) == Err::<Seq<u8>, BlteError>(e),
            },
    {
        proof {
            lemma_slice_len(data);
        }
        if data.len() < 12 {
            return Err(BlteError::Unsupported);
        }
        if !(byte_at(data, 0) == 0x42 && byte_at(data, 1) == 0x4C && byte_at(data, 2) == 0x54
            && byte_at(data, 3) == 0x45) {
            return Err(BlteError::Unsupported);
        }
        if byte_at(data, 8) != 0x0F {
            return Err(BlteError::Unsupported);
        }
        let declared = read_u32_be(data, 4);
        let count = read_u24_be(data, 9);
        if declared as u64 != 12 + 24 * (count as u64) {
            return Err(BlteError::IntegrityError);
        }
        if ((data.len() as u64) - 12) / 24 < count as u64 {
            return Err(BlteError::Unsupported);
        }
        let countu = count as usize;
        let hs: usize = 12 + 24 * countu;
        let ghost b = data@;
        let mut out: Vec<u8> = Vec::new();
        let mut pos: usize = hs;
        let mut i: usize = 0;
        proof {
            assert(Seq::<u8>::empty() + chunks_result(b, 0)->Ok_0 =~= chunks_result(b, 0)->Ok_0);
        }
        while i < countu
            invariant
                i <= countu,
                b == data@,
                b.len() <= usize::MAX,
                blte_magic_ok(b),
                b[8] == 0x0Fu8,
                be_val(b, 4, 4) == header_size(b),
                countu == chunk_count(b),
                hs == header_size(b),
                hs <= b.len(),
                pos == chunk_start(b, i as int),
                hs <= pos <= b.len(),
                chunks_result(b, i as int) is Ok ==> chunks_result(b, 0) == Ok::<
                    Seq<u8>,
                    BlteError,
                >(out@ + chunks_result(b, i as int)->Ok_0),
                chunks_result(b, i as int) is Err ==> chunks_result(b, 0) == chunks_result(
                    b,
                    i as int,
                ),
            decreases countu - i,
        {
            let esize = read_u32_be(data, 12 + 24 * i);
            let csize = read_u32_be(data, 12 + 24 * i + 4);
            if (data.len() as u64) - (pos as u64) < esize as u64 {
                return Err(BlteError::IntegrityError);
            }
            let esz = esize as usize;
            let chunk = slice_subrange(data, pos, pos + esz);
            let digest = md5_digest(chunk);
            let stored = slice_subrange(data, 12 + 24 * i + 8, 12 + 24 * i + 24);
            proof {
                assert(chunk@ == chunk_bytes(b, i as int));
                assert(stored@ == chunk_md5(b, i as int));
            }
            if !slices_eq(digest.as_slice(), stored) {
                return Err(BlteError::IntegrityError);
            }
            if esz < 1 {
                return Err(BlteError::IntegrityError);
            }
            let mode = byte_at(data, pos);
            proof {
                assert(mode == chunk_bytes(b, i as int)[0]);
            }
            if mode == 0x4E {
                if csize as u64 != esize as u64 - 1 {
                    return Err(BlteError::IntegrityError);
                }
                let body = slice_subrange(data, pos + 1, pos + esz);
                let mut bv = slice_to_vec(body);
                proof {
                    assert(body@ =~= chunk_bytes(b, i as int).subrange(
                        1,
                        chunk_encoded_size(b, i as int),
                    ));
                }
                let ghost produced = bv@;
                let ghost before = out@;
                out.append(&mut bv);
                proof {
                    lemma_step(b, i as int, before, produced);
                }
            } else if mode == 0x5A {
                let body = slice_subrange(data, pos + 1, pos + esz);
                proof {
                    assert(body@ =~= chunk_bytes(b, i as int).subrange(
                        1,
                        chunk_encoded_size(b, i as int),
                    ));
                }
                match zlib_inflate(body) {
                    Some(mut v) => {
                        if v.len() as u64 != csize as u64 {
                            return Err(BlteError::IntegrityError);
                        }
                        let ghost produced = v@;
                        let ghost before = out@;
                        out.append(&mut v);
                        proof {
                            lemma_step(b, i as int, before, produced);
                        }
                    },
                    None => {
                        return Err(BlteError::IntegrityError);
                    },
                }
            } else {
                return Err(BlteError::UnknownEncodingMode(mode as char));
            }
            pos = pos + esz;
            i = i + 1;
        }
        proof {
            assert(chunks_result(b, countu as int) == Ok::<Seq<u8>, BlteError>(Seq::empty()));
            assert(out@ + Seq::<u8>::empty() =~= out@);
        }
        Ok(out)
    }
}

/// One decoding step: when chunk `i` contributes `produced`, the total from
/// `i` is `produced` followed by the total from `i + 1`.
proof fn lemma_step(b: Seq<u8>, i: int, before: Seq<u8>, produced: Seq<u8>)
    requires
        0 <= i < chunk_count(b),
        chunk_result(b, i) == Ok::<Seq<u8>, BlteError>(produced),
        chunks_result(b, i) is Ok ==> chunks_result(b, 0) == Ok::<Seq<u8>, BlteError>(
            before + chunks_result(b, i)->Ok_0,
        ),
        chunks_result(b, i) is Err ==> chunks_result(b, 0) == chunks_result(b, i),
    ensures
        chunks_result(b, i + 1) is Ok ==> chunks_result(b, 0) == Ok::<Seq<u8>, BlteError>(
            (before + produced) + chunks_result(b, i + 1)->Ok_0,
        ),
        chunks_result(b, i + 1) is Err ==> chunks_result(b, 0) == chunks_result(b, i + 1),
{
    if chunks_result(b, i + 1) is Ok {
        assert(before + (produced + chunks_result(b, i + 1)->Ok_0) =~= (before + produced)
            + chunks_result(b, i + 1)->Ok_0);
    }
}

} // verus!

