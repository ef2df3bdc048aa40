use casc::blte::{Blte, BlteError};
use md5::Digest;

fn md5_of(data: &[u8]) -> Vec<u8> {
    md5::Md5::digest(data).to_vec()
}

fn zlib_deflate(data: &[u8]) -> Vec<u8> {
    let mut enc = flate2::write::ZlibEncoder::new(Vec::new(), flate2::Compression::default());
    std::io::Write::write_all(&mut enc, data).unwrap();
    enc.finish().unwrap()
}

/// A container of the given chunks, each a (content size, chunk bytes) pair.
fn container(chunks: &[(u32, Vec<u8>)]) -> Vec<u8> {
    let mut out = Vec::new();
    out.extend_from_slice(b"BLTE");
    let header_size = 12 + 24 * chunks.len() as u32;
    out.extend_from_slice(&header_size.to_be_bytes());
    out.push(0xF);
    let count = chunks.len() as u32;
    out.extend_from_slice(&count.to_be_bytes()[1..4]);
    for (content_size, body) in chunks {
        out.extend_from_slice(&(body.len() as u32).to_be_bytes());
        out.extend_from_slice(&content_size.to_be_bytes());
        out.extend_from_slice(&md5_of(body));
    }
    for (_, body) in chunks {
        out.extend_from_slice(body);
    }
    out
}

#[test]
fn decode_verbatim_chunk() {
    let data = container(&[(5, b"Nhello".to_vec())]);
    assert_eq!(Blte::read_from(&data).unwrap(), b"hello");
}

#[test]
fn decode_deflated_chunk() {
    let mut body = vec![b'Z'];
    body.extend_from_slice(&zlib_deflate(b"hello world"));
    let data = container(&[(11, body)]);
    assert_eq!(Blte::read_from(&data).unwrap(), b"hello world");
}

#[test]
fn decode_concatenates_chunks_in_order() {
    let mut z = vec![b'Z'];
    z.extend_from_slice(&zlib_deflate(b" world"));
    let data = container(&[(5, b"Nhello".to_vec()), (6, z)]);
    let out = Blte::read_from(&data).unwrap();
    assert_eq!(out, b"hello world");
    // The output length is the sum of the declared content sizes.
    assert_eq!(out.len(), 5 + 6);
}

#[test]
fn tampering_any_chunk_byte_is_an_integrity_error() {
    let mut z = vec![b'Z'];
    z.extend_from_slice(&zlib_deflate(b" world"));
    let data = container(&[(5, b"Nhello".to_vec()), (6, z)]);
    let body_start = 12 + 2 * 24;
    for i in body_start..data.len() {
        let mut bad = data.clone();
        bad[i] ^= 0x40;
        assert_eq!(Blte::read_from(&bad), Err(BlteError::IntegrityError), "byte {}", i);
    }
}

#[test]
fn an_empty_chunk_carries_only_its_mode_byte() {
    let data = container(&[(0, b"N".to_vec()), (2, b"Nab".to_vec())]);
    assert_eq!(Blte::read_from(&data).unwrap(), b"ab");
}

#[test]
fn wrong_magic_is_unsupported() {
    let mut data = container(&[(5, b"Nhello".to_vec())]);
    data[0] = b'X';
    assert_eq!(Blte::read_from(&data), Err(BlteError::Unsupported));
    assert_eq!(Blte::read_from(b"BL"), Err(BlteError::Unsupported));
}

#[test]
fn a_wrong_flag_byte_is_unsupported() {
    let mut data = container(&[(5, b"Nhello".to_vec())]);
    data[8] = 0x10;
    assert_eq!(Blte::read_from(&data), Err(BlteError::Unsupported));
}

#[test]
fn a_wrong_declared_header_size_is_an_integrity_error() {
    let mut data = container(&[(5, b"Nhello".to_vec())]);
    data[4..8].copy_from_slice(&37u32.to_be_bytes());
    assert_eq!(Blte::read_from(&data), Err(BlteError::IntegrityError));
}

#[test]
fn truncated_descriptor_table_is_unsupported() {
    let data = container(&[(5, b"Nhello".to_vec())]);
    assert_eq!(Blte::read_from(&data[..20]), Err(BlteError::Unsupported));
}

#[test]
fn truncated_chunk_body_is_an_integrity_error() {
    let data = container(&[(5, b"Nhello".to_vec())]);
    assert_eq!(Blte::read_from(&data[..data.len() - 1]), Err(BlteError::IntegrityError));
}

#[test]
fn unknown_mode_is_reported_with_its_tag() {
    let data = container(&[(2, b"Xab".to_vec())]);
    assert_eq!(Blte::read_from(&data), Err(BlteError::UnknownEncodingMode('X')));
}

#[test]
fn verbatim_chunk_must_declare_its_exact_length() {
    // Declared content size 5, actual content 4: the decoder checks each
    // chunk's length strictly, so this is rejected rather than accepted.
    let data = container(&[(5, b"Nabcd".to_vec())]);
    assert_eq!(Blte::read_from(&data), Err(BlteError::IntegrityError));
}

#[test]
fn deflated_chunk_must_declare_its_exact_length() {
    let mut body = vec![b'Z'];
    body.extend_from_slice(&zlib_deflate(b"abcd"));
    let data = container(&[(5, body)]);
    assert_eq!(Blte::read_from(&data), Err(BlteError::IntegrityError));
}

#[test]
fn corrupt_deflate_stream_is_an_integrity_error() {
    // Valid MD5 over a body whose deflate stream is garbage.
    let data = container(&[(4, b"Z\x01\x02\x03".to_vec())]);
    assert_eq!(Blte::read_from(&data), Err(BlteError::IntegrityError));
}

#[test]
fn trailing_bytes_are_ignored() {
    let mut data = container(&[(5, b"Nhello".to_vec())]);
    data.extend_from_slice(b"junk");
    assert_eq!(Blte::read_from(&data).unwrap(), b"hello");
}
