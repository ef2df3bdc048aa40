use casc::tact_manifest::{
    ContentManifestAsset, ContentManifestEntry, ContentManifestHeader, KEYTABLE, decrypt_cmf,
};
use aes::cipher::{BlockEncryptMut, KeyIvInit};
use sha1::Digest;

fn header(build_version: u32, asset_count: u32) -> ContentManifestHeader {
    ContentManifestHeader {
        build_version,
        u0: 0,
        u1: 0,
        u2: 0,
        u3: 0,
        u4: 0,
        u5: 0,
        asset_patch_record_count: 0,
        asset_count,
        entry_patch_record_count: 0,
        entry_count: 0,
    }
}

/// The key and IV exactly as the library derives them, recomputed here from
/// the published table to encrypt a known plaintext.
fn derive(build_version: u32, asset_count: u32, file_name: &str) -> ([u8; 32], [u8; 16]) {
    let digest = sha1::Sha1::digest(file_name.as_bytes());
    let mut key = [0u8; 32];
    let mut kidx = 32u32.wrapping_mul(build_version);
    for b in &mut key {
        *b = KEYTABLE[(kidx % 512) as usize];
        kidx = build_version.wrapping_sub(kidx);
    }
    let mut iv = [0u8; 16];
    let mut kidx = KEYTABLE[(build_version & 0x1FF) as usize] as u32;
    let step = build_version.wrapping_mul(asset_count) % 7;
    for b in &mut iv {
        *b = KEYTABLE[(kidx % 512) as usize];
        kidx = kidx.wrapping_add(step);
        *b ^= digest[(kidx.wrapping_sub(73) % 20) as usize];
    }
    (key, iv)
}

#[test]
fn decrypt_recovers_an_encrypted_manifest() {
    let name = "Manifest/Win_Ext.cmf";
    let h = header(92022, 7);
    let plain = *b"0123456789abcdef0123456789abcdef";
    let (key, iv) = derive(h.build_version, h.asset_count, name);
    let mut blocks = plain;
    let mut enc = cbc::Encryptor::<aes::Aes256>::new(&key.into(), &iv.into());
    for chunk in blocks.chunks_mut(16) {
        enc.encrypt_block_mut(chunk.into());
    }
    let mut data = b"cmf\x01".to_vec();
    data.extend_from_slice(&blocks);
    assert_eq!(decrypt_cmf(name, &h, &data), plain.to_vec());
}

#[test]
fn decryption_is_deterministic() {
    let h = header(57, 3);
    let mut data = vec![0u8; 4 + 32];
    for (i, b) in data.iter_mut().enumerate() {
        *b = (i * 7) as u8;
    }
    assert_eq!(decrypt_cmf("a.cmf", &h, &data), decrypt_cmf("a.cmf", &h, &data));
}

#[test]
fn the_file_name_keys_the_decryption() {
    // The same ciphertext under two names must not yield the same bytes: a
    // wrong logical name silently produces garbage, never the plaintext.
    let h = header(57, 3);
    let mut data = vec![0u8; 4 + 32];
    for (i, b) in data.iter_mut().enumerate() {
        *b = (i * 13) as u8;
    }
    assert_ne!(decrypt_cmf("a.cmf", &h, &data), decrypt_cmf("b.cmf", &h, &data));
}

#[test]
fn the_build_version_keys_the_decryption() {
    let mut data = vec![0u8; 4 + 32];
    for (i, b) in data.iter_mut().enumerate() {
        *b = (i * 3) as u8;
    }
    assert_ne!(
        decrypt_cmf("a.cmf", &header(57, 3), &data),
        decrypt_cmf("a.cmf", &header(58, 3), &data),
    );
}

#[test]
fn plaintext_is_as_long_as_the_ciphertext() {
    let h = header(1, 1);
    let data = vec![0u8; 4 + 64];
    assert_eq!(decrypt_cmf("x", &h, &data).len(), 64);
}

#[test]
fn header_fields_parse_little_endian() {
    let mut data = Vec::new();
    for v in [10u32, 0, 1, 2, 3, 4, 5, 6, 77, 8, 99] {
        data.extend_from_slice(&v.to_le_bytes());
    }
    let h = ContentManifestHeader::read_from(&data, 0);
    assert_eq!(h.build_version, 10);
    assert_eq!(h.asset_count, 77);
    assert_eq!(h.entry_count, 99);
}

#[test]
fn entry_records_parse_little_endian() {
    let mut data = Vec::new();
    data.extend_from_slice(&3u32.to_le_bytes());
    data.extend_from_slice(&0x1122334455667788u64.to_le_bytes());
    data.extend_from_slice(&0x99AABBCCDDEEFF00u64.to_le_bytes());
    let e = ContentManifestEntry::read_from(&data, 0);
    assert_eq!(e.index, 3);
    assert_eq!(e.hash_a, 0x1122334455667788);
    assert_eq!(e.hash_b, 0x99AABBCCDDEEFF00);
    let all = ContentManifestEntry::read_all(&data, 0, 1);
    assert_eq!(all.len(), 1);
    assert_eq!(all[0].index, 3);
}

#[test]
fn asset_records_parse_little_endian() {
    let mut data = Vec::new();
    data.extend_from_slice(&0xAABBCCDDu64.to_le_bytes());
    data.extend_from_slice(&512u32.to_le_bytes());
    data.push(7);
    data.extend_from_slice(&[0xEE; 16]);
    let a = ContentManifestAsset::read_from(&data, 0);
    assert_eq!(a.guid, 0xAABBCCDD);
    assert_eq!(a.size, 512);
    assert_eq!(a.unknown_0c, 7);
    assert_eq!(a.md5, vec![0xEE; 16]);
    let all = ContentManifestAsset::read_all(&data, 0, 1);
    assert_eq!(all[0].guid, 0xAABBCCDD);
}
