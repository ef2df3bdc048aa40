use casc::hash::{hash32, hash32_with_seed, record_checksum};

#[test]
fn hash32_empty_input() {
    assert_eq!(hash32(b""), 0xdeadbeef);
}

#[test]
fn hash32_empty_input_seeded() {
    // With no input bytes the hash is the initial state itself.
    assert_eq!(hash32_with_seed(b"", 0xdeadbeef), 0xbd5b7dde);
    assert_eq!(hash32_with_seed(b"", 0x3D6BE971), 0x1c19a860);
}

#[test]
fn hash32_published_vector() {
    // The classic lookup3 self-test phrase, two 12-byte blocks plus a tail.
    assert_eq!(hash32(b"Four score and seven years ago"), 0x17770551);
}

#[test]
fn hash32_published_vector_seed_one() {
    assert_eq!(hash32_with_seed(b"Four score and seven years ago", 1), 0xcd628161);
}

#[test]
fn hash32_record_seed_variant() {
    let data = b"Four score and seven years ago";
    assert_eq!(hash32_with_seed(data, 0x3D6BE971), 0xb71f7373);
    assert_ne!(hash32_with_seed(data, 0x3D6BE971), hash32(data));
}

#[test]
fn hash32_exact_block_lengths() {
    // 12 and 24 bytes exercise the tail case that consumes a whole block.
    let d: Vec<u8> = (0u8..24).collect();
    assert_ne!(hash32(&d[..12]), hash32(&d[..11]));
    assert_ne!(hash32(&d[..24]), hash32(&d[..12]));
}

#[test]
fn record_checksum_empty_prefix() {
    // With no bytes folded in, the checksum is the encoded position alone:
    // table[4] ^ 4.
    assert_eq!(record_checksum(b"", 0), 0x15DE40B5);
}

#[test]
fn record_checksum_small_prefix() {
    assert_eq!(record_checksum(&[1, 2, 3, 4], 8), 0x009094A9);
}

#[test]
fn record_checksum_full_prefix() {
    let d: Vec<u8> = (0u8..26).collect();
    assert_eq!(record_checksum(&d, 0x1234), 0x6384EA66);
}

#[test]
fn record_checksum_depends_on_offset() {
    let d: Vec<u8> = (0u8..26).collect();
    assert_ne!(record_checksum(&d, 0), record_checksum(&d, 4));
}
