use casc::bytes::{read_u16_be, read_u24_be, read_u32_le, read_u64_le, read_uint_be, read_uint_le};
use casc::texture::{TextureHeader, TexturePayloadHeader};

#[test]
fn fixed_width_reads_follow_their_byte_order() {
    let d = [0x11u8, 0x22, 0x33, 0x44, 0x55, 0x66, 0x77, 0x88];
    assert_eq!(read_u32_le(&d, 0), 0x44332211);
    assert_eq!(read_u64_le(&d, 0), 0x8877665544332211);
    assert_eq!(read_u16_be(&d, 0), 0x1122);
    assert_eq!(read_u24_be(&d, 1), 0x223344);
    assert_eq!(read_uint_be(&d, 0, 5), 0x1122334455);
    assert_eq!(read_uint_le(&d, 0, 5), 0x5544332211);
    assert_eq!(read_uint_le(&d, 3, 0), 0);
}

#[test]
fn texture_heads_parse_little_endian() {
    let mut d = Vec::new();
    d.extend_from_slice(&0x0041u16.to_le_bytes()); // flags
    d.extend_from_slice(&[5, 2, 1, 8, 3, 0]); // mips..stencil
    d.extend_from_slice(&128u16.to_le_bytes());
    d.extend_from_slice(&256u16.to_le_bytes());
    d.extend_from_slice(&4096u32.to_le_bytes());
    d.extend_from_slice(&[0u8; 16]);
    let h = TextureHeader::read_from(&d, 0);
    assert_eq!(h.flags, 0x41);
    assert_eq!(h.mip_level_count, 5);
    assert_eq!(h.format, 2);
    assert_eq!(h.usage, 8);
    assert_eq!(h.payload_count, 3);
    assert_eq!(h.width, 128);
    assert_eq!(h.height, 256);
    assert_eq!(h.size, 4096);

    let mut d = Vec::new();
    for v in [2u32, 5, 1024, 0] {
        d.extend_from_slice(&v.to_le_bytes());
    }
    let p = TexturePayloadHeader::read_from(&d, 0);
    assert_eq!(p.mip_level, 2);
    assert_eq!(p.mip_level_count, 5);
    assert_eq!(p.size, 1024);
}
