//! The tagged chunk framing used by several stored payloads: a fixed head,
//! then chunks of (id, size, data size, tag, version) followed by that many
//! data bytes, until fewer than one id remains.

use vstd::prelude::*;
use crate::bytes::le_val;
use crate::bytes::lemma_le_val_bound;
use crate::bytes::lemma_slice_len;
use crate::bytes::read_u16_le;
use crate::bytes::read_u32_le;
use vstd::slice::slice_subrange;
use vstd::slice::slice_to_vec;

verus! {

/// One tagged chunk.
#[derive(Debug)]
pub struct ChunkedDataChunk {
    pub id: u32,
    pub tag: u16,
    pub version: u16,
    pub data: Vec<u8>,
}

/// The mathematical value of a [`ChunkedDataChunk`].
#[verifier::ext_equal]
pub struct ChunkedDataChunkModel {
    pub id: u32,
    pub tag: u16,
    pub version: u16,
    pub data: Seq<u8>,
}

impl View for ChunkedDataChunk {
    type V = ChunkedDataChunkModel;

    open spec fn view(&self) -> ChunkedDataChunkModel {
        ChunkedDataChunkModel {
            id: self.id,
            tag: self.tag,
            version: self.version,
            data: self.data@,
        }
    }
}

/// A framed payload: its id and its chunks, in order.
#[derive(Debug)]
pub struct ChunkedData {
    pub id: u32,
    pub chunks: Vec<ChunkedDataChunk>,
}

/// The mathematical value of a [`ChunkedData`].
#[verifier::ext_equal]
pub struct ChunkedDataModel {
    pub id: u32,
    pub chunks: Seq<ChunkedDataChunkModel>,
}

impl View for ChunkedData {
    type V = ChunkedDataModel;

    open spec fn view(&self) -> ChunkedDataModel {
        ChunkedDataModel { id: self.id, chunks: chunk_views(self.chunks@) }
    }
}

/// The views of a sequence of chunks.
pub open spec fn chunk_views(s: Seq<ChunkedDataChunk>) -> Seq<ChunkedDataChunkModel> {
    s.map_values(|c: ChunkedDataChunk| c@)
}

/// The chunks from `pos` on, or nothing when a chunk head or its declared
/// data does not fit: fewer than four remaining bytes end the input cleanly.
pub open spec fn scan_chunks(b: Seq<u8>, pos: int) -> Option<Seq<ChunkedDataChunkModel>>
    recommends
        0 <= pos,
    decreases b.len() - pos,
    when 0 <= pos
    via scan_chunks_dec
{
    if b.len() - pos < 4 {
        Some(Seq::empty())
    } else if b.len() - pos < 16 {
        None
    } else {
        let dsz = le_val(b, pos + 8, 4);
        if pos + 16 + dsz > b.len() {
            None
        } else {
            let c = ChunkedDataChunkModel {
                id: le_val(b, pos, 4) as u32,
                tag: le_val(b, pos + 12, 2) as u16,
                version: le_val(b, pos + 14, 2) as u16,
                data: b.subrange(pos + 16, pos + 16 + dsz),
            };
            match scan_chunks(b, pos + 16 + dsz) {
                Some(rest) => Some(seq![c] + rest),
                None => None,
            }
        }
    }
}

#[via_fn]
proof fn scan_chunks_dec(b: Seq<u8>, pos: int) {
    if b.len() - pos >= 16 {
        lemma_le_val_bound(b, pos + 8, 4);
    }
}

/// The framed payload `b` denotes, or nothing when it is malformed.
pub open spec fn spec_chunked(b: Seq<u8>) -> Option<ChunkedDataModel> {
    if b.len() < 16 {
        None
    } else {
        match scan_chunks(b, 16) {
            Some(chunks) => Some(ChunkedDataModel { id: le_val(b, 4, 4) as u32, chunks }),
            None => None,
        }
    }
}

impl ChunkedData {
    /// Parse a framed payload: the head's id, then every chunk, until fewer
    /// than one id remains. Returns nothing when the head or a chunk's
    /// declared data does not fit the input.
    pub fn read_from(d: &[u8]) -> (r: Option<ChunkedData>)
        ensures
            match r {
                Some(c) => spec_chunked(d@) == Some(c@),
                None => spec_chunked(d@) is None,
            },
    {
        proof {
            lemma_slice_len(d);
        }
        let len = d.len();
        if len < 16 {
            return None;
        }
        let id = read_u32_le(d, 4);
        let mut chunks: Vec<ChunkedDataChunk> = Vec::new();
        let mut pos: usize = 16;
        proof {
            assert(chunk_views(chunks@) + scan_chunks(d@, 16)->Some_0 =~= scan_chunks(
                d@,
                16,
            )->Some_0);
        }
        loop
            invariant_except_break
                16 <= pos <= len,
                len == d@.len(),
                len <= usize::MAX,
                scan_chunks(d@, 16) == (match scan_chunks(d@, pos as int) {
                    Some(rest) => Some(chunk_views(chunks@) + rest),
                    None => None,
                }),
            ensures
                scan_chunks(d@, 16) == Some(chunk_views(chunks@)),
            decreases len - pos,
        {
            if len - pos < 4 {
                proof {
                    assert(scan_chunks(d@, pos as int) == Some(
                        Seq::<ChunkedDataChunkModel>::empty(),
                    ));
                    assert(chunk_views(chunks@) + Seq::<ChunkedDataChunkModel>::empty()
                        =~= chunk_views(chunks@));
                }
                break;
            }
            if len - pos < 16 {
                return None;
            }
            let dsz = read_u32_le(d, pos + 8);
            if (dsz as u64) > (len as u64) - (pos as u64) - 16 {
                return None;
            }
            let dszu = dsz as usize;
            let chunk = ChunkedDataChunk {
                id: read_u32_le(d, pos),
                tag: read_u16_le(d, pos + 12),
                version: read_u16_le(d, pos + 14),
                data: slice_to_vec(slice_subrange(d, pos + 16, pos + 16 + dszu)),
            };
            let ghost before = chunks@;
            let ghost cm = chunk@;
            chunks.push(chunk);
            proof {
                if scan_chunks(d@, pos + 16 + dszu) is Some {
                    assert(chunk_views(before) + (seq![cm] + scan_chunks(
                        d@,
                        pos + 16 + dszu,
                    )->Some_0) =~= chunk_views(chunks@) + scan_chunks(d@, pos + 16 + dszu)->Some_0);
                }
            }
            pos = pos + 16 + dszu;
        }
        Some(ChunkedData { id, chunks })
    }
}

} // verus!
