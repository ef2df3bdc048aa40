//! The fixed-width heads of stored texture records, read as plain
//! little-endian fields; decoding the pixel data itself belongs to the
//! format converters above this crate.

use vstd::prelude::*;
use crate::bytes::le_val;
use crate::bytes::lemma_le_val_bound;
use crate::bytes::lemma_pow256_words;
use crate::bytes::lemma_slice_len;
use crate::bytes::byte_at;
use crate::bytes::read_u16_le;
use crate::bytes::read_u32_le;
use crate::bytes::read_u64_le;

verus! {

/// The 32-byte head of a texture record.
#[derive(Clone, Copy, PartialEq, Eq, Structural, Debug)]
pub struct TextureHeader {
    pub flags: u16,
    pub mip_level_count: u8,
    pub format: u8,
    pub depth_or_array_layers: u8,
    pub usage: u8,
    pub payload_count: u8,
    pub u8_1: u8,
    pub width: u16,
    pub height: u16,
    pub size: u32,
    pub u16_0: u16,
    pub u16_1: u16,
    pub u32_0: u32,
    pub u64_0: u64,
}

/// The 16-byte head of one texture payload.
#[derive(Clone, Copy, PartialEq, Eq, Structural, Debug)]
pub struct TexturePayloadHeader {
    pub mip_level: u32,
    pub mip_level_count: u32,
    pub size: u32,
    pub u32_0: u32,
}

/// What a texture is used for, as its head declares it.
#[derive(Clone, Copy, PartialEq, Eq, Structural, Debug)]
pub enum TextureUsage {
    Unset,
    Terrain,
    GameMap,
    Tree,
    Hero,
    OverlayEffect,
    Effect,
    Weapon,
    Object,
    Unknown9,
    Unknown10,
    Ui,
    Unknown12,
    Unknown13,
    Unknown14,
    Sticker,
    Unknown16,
}

/// The texture head denoted by 32 little-endian bytes at `pos`.
pub open spec fn spec_texture_header(d: Seq<u8>, pos: int) -> TextureHeader {
    TextureHeader {
        flags: le_val(d, pos, 2) as u16,
        mip_level_count: d[pos + 2],
        format: d[pos + 3],
        depth_or_array_layers: d[pos + 4],
        usage: d[pos + 5],
        payload_count: d[pos + 6],
        u8_1: d[pos + 7],
        width: le_val(d, pos + 8, 2) as u16,
        height: le_val(d, pos + 10, 2) as u16,
        size: le_val(d, pos + 12, 4) as u32,
        u16_0: le_val(d, pos + 16, 2) as u16,
        u16_1: le_val(d, pos + 18, 2) as u16,
        u32_0: le_val(d, pos + 20, 4) as u32,
        u64_0: le_val(d, pos + 24, 8) as u64,
    }
}

impl TextureHeader {
    /// Parse the 32-byte texture head at `pos`.
    pub fn read_from(d: &[u8], pos: usize) -> (r: TextureHeader)
        requires
            pos + 32 <= d@.len(),
        ensures
            r == spec_texture_header(d@, pos as int),
    {
        proof {
            lemma_slice_len(d);
            lemma_le_val_bound(d@, pos + 24, 8);
            lemma_pow256_words();
        }
        TextureHeader {
            flags: read_u16_le(d, pos),
            mip_level_count: byte_at(d, pos + 2),
            format: byte_at(d, pos + 3),
            depth_or_array_layers: byte_at(d, pos + 4),
            usage: byte_at(d, pos + 5),
            payload_count: byte_at(d, pos + 6),
            u8_1: byte_at(d, pos + 7),
            width: read_u16_le(d, pos + 8),
            height: read_u16_le(d, pos + 10),
            size: read_u32_le(d, pos + 12),
            u16_0: read_u16_le(d, pos + 16),
            u16_1: read_u16_le(d, pos + 18),
            u32_0: read_u32_le(d, pos + 20),
            u64_0: read_u64_le(d, pos + 24),
        }
    }
}

/// The payload head denoted by 16 little-endian bytes at `pos`.
pub open spec fn spec_texture_payload_header(d: Seq<u8>, pos: int) -> TexturePayloadHeader {
    TexturePayloadHeader {
        mip_level: le_val(d, pos, 4) as u32,
        mip_level_count: le_val(d, pos + 4, 4) as u32,
        size: le_val(d, pos + 8, 4) as u32,
        u32_0: le_val(d, pos + 12, 4) as u32,
    }
}

impl TexturePayloadHeader {
    /// Parse the 16-byte payload head at `pos`.
    pub fn read_from(d: &[u8], pos: usize) -> (r: TexturePayloadHeader)
        requires
            pos + 16 <= d@.len(),
        ensures
            r == spec_texture_payload_header(d@, pos as int),
    {
        proof {
            lemma_slice_len(d);
        }
        TexturePayloadHeader {
            mip_level: read_u32_le(d, pos),
            mip_level_count: read_u32_le(d, pos + 4),
            size: read_u32_le(d, pos + 8),
            u32_0: read_u32_le(d, pos + 12),
        }
    }
}

} // verus!
