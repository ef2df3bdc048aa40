use casc::blte::Blte;
use casc::casc::{Casc, CascError, Entry, Index, SharedMemory};
use casc::hash::{hash32, hash32_with_seed, record_checksum};
use md5::Digest;

/// A 5-byte location field packing `(file, offset)` under 30 segment bits.
fn pack_location(file: u64, offset: u64) -> [u8; 5] {
    let packed = (file << 30) | offset;
    let mut out = [0u8; 5];
    out[0] = (packed >> 32) as u8;
    out[1..5].copy_from_slice(&((packed & 0xFFFF_FFFF) as u32).to_be_bytes());
    out
}

/// One index file with version 7, the given bucket, 9-byte keys, 5-byte
/// locations under 30 segment bits, and 4-byte little-endian lengths.
fn index_bytes(bucket: u16, entries: &[(Vec<u8>, u64, u64, u32)]) -> Vec<u8> {
    let mut header = Vec::new();
    header.extend_from_slice(&7u16.to_le_bytes());
    header.extend_from_slice(&bucket.to_le_bytes());
    header.push(4); // length size
    header.push(5); // location size
    header.push(9); // key size
    header.push(30); // segment bits
    header.extend_from_slice(&0x4000_0000u64.to_le_bytes());
    let mut table = Vec::new();
    for (key, file, offset, length) in entries {
        assert_eq!(key.len(), 9);
        table.extend_from_slice(key);
        table.extend_from_slice(&pack_location(*file, *offset));
        table.extend_from_slice(&length.to_le_bytes());
    }
    let mut out = Vec::new();
    out.extend_from_slice(&(header.len() as u32).to_le_bytes());
    out.extend_from_slice(&hash32(&header).to_le_bytes());
    out.extend_from_slice(&header);
    out.extend_from_slice(&[0u8; 8]);
    out.extend_from_slice(&(table.len() as u32).to_le_bytes());
    out.extend_from_slice(&hash32(&table).to_le_bytes());
    out.extend_from_slice(&table);
    out
}

/// The root descriptor: a path, 16 bucket versions, and one free-space slot.
fn shmem_bytes(path: &[u8], versions: &[u32; 16]) -> Vec<u8> {
    let mut out = Vec::new();
    out.extend_from_slice(&4u32.to_le_bytes());
    out.extend_from_slice(&328u32.to_le_bytes());
    let mut p = path.to_vec();
    p.resize(256, 0);
    out.extend_from_slice(&p);
    for v in versions {
        out.extend_from_slice(&v.to_le_bytes());
    }
    out.extend_from_slice(&1u32.to_le_bytes());
    out.extend_from_slice(&1u32.to_le_bytes()); // one free-space slot
    out.extend_from_slice(&[0u8; 0x18]);
    out.extend_from_slice(&pack_location(0, 100)); // its length, offset-coded
    out.extend_from_slice(&vec![0u8; 1089 * 5]);
    out.extend_from_slice(&pack_location(1, 50)); // its file and offset
    out
}

/// A stored record at absolute offset `offset` of file `file`: key, declared
/// length, flags, both checksums, then the payload.
fn record_bytes(file: u64, offset: u64, payload: &[u8]) -> Vec<u8> {
    let length = (30 + payload.len()) as u32;
    let mut out = Vec::new();
    out.extend_from_slice(&[0u8; 16]);
    out.extend_from_slice(&length.to_le_bytes());
    out.extend_from_slice(&0u16.to_le_bytes());
    let ck_a = hash32_with_seed(&out, 0x3D6BE971);
    out.extend_from_slice(&ck_a.to_le_bytes());
    let off32 = ((offset & 0x3FFF_FFFF) as u32) | (((file & 3) as u32) << 30);
    let ck_b = record_checksum(&out, off32);
    out.extend_from_slice(&ck_b.to_le_bytes());
    out.extend_from_slice(payload);
    out
}

/// A single-chunk verbatim container wrapping `content`.
fn blte_bytes(content: &[u8]) -> Vec<u8> {
    let mut body = vec![b'N'];
    body.extend_from_slice(content);
    let mut out = Vec::new();
    out.extend_from_slice(b"BLTE");
    out.extend_from_slice(&36u32.to_be_bytes()); // the head plus one descriptor
    out.push(0xF);
    out.extend_from_slice(&1u32.to_be_bytes()[1..4]);
    out.extend_from_slice(&(body.len() as u32).to_be_bytes());
    out.extend_from_slice(&(content.len() as u32).to_be_bytes());
    out.extend_from_slice(&md5::Md5::digest(&body));
    out.extend_from_slice(&body);
    out
}

#[test]
fn entry_unpacks_file_and_offset() {
    let mut data = vec![9u8; 9];
    data.extend_from_slice(&pack_location(2, 0x123456));
    data.extend_from_slice(&72u32.to_le_bytes());
    let (e, next) = Entry::read_from(&data, 0, 4, 5, 9, 30);
    assert_eq!(e.key, vec![9u8; 9]);
    assert_eq!(e.file, 2);
    assert_eq!(e.offset, 0x123456);
    assert_eq!(e.length, 72);
    assert_eq!(next, 18);
}

#[test]
fn entry_strips_file_bits_from_an_unaligned_split() {
    // A 3-byte location under 20 segment bits: (file 1, offset 0) packs to
    // 0x100000, and the file bit above the offset field must not leak into
    // the decoded offset.
    let data = vec![0x10u8, 0x00, 0x00];
    let (e, next) = Entry::read_from(&data, 0, 0, 3, 0, 20);
    assert_eq!(e.file, 1);
    assert_eq!(e.offset, 0);
    assert_eq!(e.length, 0);
    assert_eq!(next, 3);
}

#[test]
fn index_parses_header_and_entries() {
    let key = vec![7u8; 9];
    let data = index_bytes(3, &[(key.clone(), 1, 0x40, 72)]);
    let ix = Index::read_from(&data).unwrap();
    assert_eq!(ix.bucket, 3);
    assert_eq!(ix.entry_segment_bits, 30);
    assert_eq!(ix.limit, 0x4000_0000);
    assert_eq!(ix.entries.len(), 1);
    assert_eq!(ix.entries[0].key, key);
    assert_eq!(ix.entries[0].file, 1);
    assert_eq!(ix.entries[0].offset, 0x40);
    assert_eq!(ix.entries[0].length, 72);
}

#[test]
fn index_rejects_corrupt_header_hash() {
    let mut data = index_bytes(0, &[]);
    data[8] ^= 1;
    assert_eq!(Index::read_from(&data).unwrap_err(), CascError::IntegrityError);
}

#[test]
fn index_rejects_corrupt_entry_table_hash() {
    let mut data = index_bytes(0, &[(vec![7u8; 9], 0, 0, 72)]);
    let n = data.len();
    data[n - 1] ^= 1;
    assert_eq!(Index::read_from(&data).unwrap_err(), CascError::IntegrityError);
}

#[test]
fn index_rejects_wrong_version() {
    let mut header = Vec::new();
    header.extend_from_slice(&8u16.to_le_bytes());
    header.extend_from_slice(&0u16.to_le_bytes());
    header.extend_from_slice(&[4, 5, 9, 30]);
    header.extend_from_slice(&0u64.to_le_bytes());
    let mut data = Vec::new();
    data.extend_from_slice(&(header.len() as u32).to_le_bytes());
    data.extend_from_slice(&hash32(&header).to_le_bytes());
    data.extend_from_slice(&header);
    data.extend_from_slice(&[0u8; 8]);
    data.extend_from_slice(&0u32.to_le_bytes());
    data.extend_from_slice(&hash32(b"").to_le_bytes());
    assert_eq!(Index::read_from(&data).unwrap_err(), CascError::Unsupported);
}

#[test]
fn index_rejects_partial_trailing_entry() {
    let mut data = index_bytes(0, &[(vec![7u8; 9], 0, 0, 72)]);
    // Re-declare the entry table one byte short of a whole entry.
    let header_len = 16;
    let epos = 8 + header_len + 8;
    let table_len = 17u32;
    data.truncate(epos + 8 + table_len as usize);
    let table = data[epos + 8..].to_vec();
    data[epos..epos + 4].copy_from_slice(&table_len.to_le_bytes());
    data[epos + 4..epos + 8].copy_from_slice(&hash32(&table).to_le_bytes());
    assert_eq!(Index::read_from(&data).unwrap_err(), CascError::IntegrityError);
}

#[test]
fn shared_memory_parses_path_versions_and_free_space() {
    let mut versions = [0u32; 16];
    versions[0] = 1;
    versions[5] = 3;
    let data = shmem_bytes(b"Data/data", &versions);
    let sm = SharedMemory::read_from(&data).unwrap();
    assert_eq!(sm.data_path, b"Data/data");
    assert_eq!(sm.versions, versions.to_vec());
    assert_eq!(sm.free_spaces.len(), 1);
    assert_eq!(sm.free_spaces[0].length, 100);
    assert_eq!(sm.free_spaces[0].file, 1);
    assert_eq!(sm.free_spaces[0].offset, 50);
}

#[test]
fn shared_memory_skips_the_filler_block() {
    // A header size of 344 declares two 8-byte filler pairs between the
    // path and the versions.
    let mut out = Vec::new();
    out.extend_from_slice(&4u32.to_le_bytes());
    out.extend_from_slice(&344u32.to_le_bytes());
    let mut p = b"d".to_vec();
    p.resize(256, 0);
    out.extend_from_slice(&p);
    out.extend_from_slice(&[0xAB; 16]); // the filler pairs
    for v in 0..16u32 {
        out.extend_from_slice(&(v + 1).to_le_bytes());
    }
    out.extend_from_slice(&1u32.to_le_bytes());
    out.extend_from_slice(&0u32.to_le_bytes()); // no free-space slots
    out.extend_from_slice(&[0u8; 0x18]);
    out.extend_from_slice(&vec![0u8; 1090 * 5]);
    let sm = SharedMemory::read_from(&out).unwrap();
    assert_eq!(sm.versions, (1..=16).collect::<Vec<u32>>());
    assert!(sm.free_spaces.is_empty());
}

#[test]
fn shared_memory_rejects_wrong_tags() {
    let mut versions = [0u32; 16];
    versions[0] = 1;
    let good = shmem_bytes(b"x", &versions);
    let mut bad = good.clone();
    bad[0] = 5;
    assert_eq!(SharedMemory::read_from(&bad).unwrap_err(), CascError::Unsupported);
    let mut bad = good.clone();
    bad[328] = 2; // the free-space block tag
    assert_eq!(SharedMemory::read_from(&bad).unwrap_err(), CascError::Unsupported);
}

#[test]
fn find_prefers_the_entry_inserted_last() {
    let key = vec![1u8; 9];
    let ix1 = Index::read_from(&index_bytes(0, &[(key.clone(), 0, 0, 10)])).unwrap();
    let ix2 = Index::read_from(&index_bytes(1, &[(key.clone(), 2, 0x80, 20)])).unwrap();
    let store = Casc::from_indices(vec![ix1, ix2]);
    let mut lookup = key.clone();
    lookup.extend_from_slice(&[0xAA; 7]); // only the 9-byte prefix counts
    let e = store.find(&lookup).unwrap();
    assert_eq!(e.file, 2);
    assert_eq!(e.length, 20);
}

#[test]
fn find_scans_every_index() {
    let ix1 = Index::read_from(&index_bytes(0, &[(vec![1u8; 9], 0, 0, 10)])).unwrap();
    let ix2 = Index::read_from(&index_bytes(1, &[(vec![2u8; 9], 1, 0x40, 20), (vec![3u8; 9], 2,
        0x80, 30)])).unwrap();
    let store = Casc::from_indices(vec![ix1, ix2]);
    assert_eq!(store.find(&[1u8; 9]).unwrap().length, 10);
    assert_eq!(store.find(&[2u8; 9]).unwrap().length, 20);
    assert_eq!(store.find(&[3u8; 9]).unwrap().length, 30);
}

#[test]
fn find_reports_a_missing_key() {
    let ix = Index::read_from(&index_bytes(0, &[(vec![1u8; 9], 0, 0, 10)])).unwrap();
    let store = Casc::from_indices(vec![ix]);
    assert_eq!(store.find(&[9u8; 16]).unwrap_err(), CascError::EntryNotFound);
}

#[test]
fn record_validation_accepts_a_well_formed_record() {
    let payload = blte_bytes(b"hello");
    let record = record_bytes(0, 0, &payload);
    let e = Entry { key: vec![0; 9], file: 0, offset: 0, length: record.len() as u64 };
    assert!(e.read(&record).is_ok());
}

#[test]
fn record_validation_rejects_wrong_length_and_checksums() {
    let payload = blte_bytes(b"hello");
    let record = record_bytes(0, 0, &payload);
    let e = Entry { key: vec![0; 9], file: 0, offset: 0, length: record.len() as u64 + 1 };
    assert_eq!(e.read(&record).unwrap_err(), CascError::IntegrityError);
    let e = Entry { key: vec![0; 9], file: 0, offset: 0, length: record.len() as u64 };
    let mut bad = record.clone();
    bad[22] ^= 1; // the stored block hash
    assert_eq!(e.read(&bad).unwrap_err(), CascError::IntegrityError);
    let mut bad = record.clone();
    bad[26] ^= 1; // the stored record checksum
    assert_eq!(e.read(&bad).unwrap_err(), CascError::IntegrityError);
    // A record at another offset fails the position-keyed checksum.
    let e = Entry { key: vec![0; 9], file: 0, offset: 0x40, length: record.len() as u64 };
    assert_eq!(e.read(&record).unwrap_err(), CascError::IntegrityError);
}

#[test]
fn store_returns_the_payload_end_to_end() {
    // One bucket at version 1, one entry {key: 9 zero bytes, file 0,
    // offset 0}, and a data file holding a valid record that wraps "hello".
    let mut versions = [0u32; 16];
    versions[0] = 1;
    let sm = SharedMemory::read_from(&shmem_bytes(b"data", &versions)).unwrap();
    assert_eq!(sm.versions[0], 1);
    let payload = blte_bytes(b"hello");
    let data_000 = record_bytes(0, 0, &payload);
    let ix = Index::read_from(
        &index_bytes(0, &[(vec![0u8; 9], 0, 0, data_000.len() as u32)]),
    ).unwrap();
    let store = Casc::from_indices(vec![ix]);
    let entry = store.find(&[0u8; 16]).unwrap();
    let record = &data_000[entry.offset as usize..entry.offset as usize + entry.length as usize];
    entry.read(record).unwrap();
    assert_eq!(Blte::read_from(&record[30..]).unwrap(), b"hello");
}
