use casc::tact::{CToEKey, EKeySpec, Encoding, TactError, read_asciiz};
use md5::Digest;

fn page_md5(data: &[u8]) -> Vec<u8> {
    md5::Md5::digest(data).to_vec()
}

/// A content-key record: count, 5-byte size, key, then the encoding keys.
fn c_record(c_key: &[u8], c_size: u64, e_keys: &[&[u8]]) -> Vec<u8> {
    let mut out = vec![e_keys.len() as u8];
    out.extend_from_slice(&c_size.to_be_bytes()[3..8]);
    out.extend_from_slice(c_key);
    for k in e_keys {
        out.extend_from_slice(k);
    }
    out
}

/// An encoding-key record: key, spec-string index, 5-byte size.
fn e_record(e_key: &[u8], spec_index: u32, e_size: u64) -> Vec<u8> {
    let mut out = e_key.to_vec();
    out.extend_from_slice(&spec_index.to_be_bytes());
    out.extend_from_slice(&e_size.to_be_bytes()[3..8]);
    out
}

/// A whole table: 4-byte keys, 1 KiB pages, the given page bodies (each
/// padded to page size), and the given spec-string block. Each page's
/// descriptor key is its body's first record key.
fn table_bytes(spec_block: &[u8], c_pages: &[Vec<u8>], e_pages: &[Vec<u8>]) -> Vec<u8> {
    let mut out = Vec::new();
    out.extend_from_slice(b"EN");
    out.push(1); // version
    out.push(4); // content key size
    out.push(4); // encoding key size
    out.extend_from_slice(&1u16.to_be_bytes()); // content pages of 1 KiB
    out.extend_from_slice(&1u16.to_be_bytes()); // encoding pages of 1 KiB
    out.extend_from_slice(&(c_pages.len() as u32).to_be_bytes());
    out.extend_from_slice(&(e_pages.len() as u32).to_be_bytes());
    out.push(0);
    out.extend_from_slice(&(spec_block.len() as u32).to_be_bytes());
    out.extend_from_slice(spec_block);
    let mut bodies: Vec<Vec<u8>> = Vec::new();
    for page in c_pages {
        let mut body = page.clone();
        body.resize(1024, 0);
        out.extend_from_slice(&body[6..10]); // the first record's content key
        out.extend_from_slice(&page_md5(&body));
        bodies.push(body);
    }
    for body in &bodies {
        out.extend_from_slice(body);
    }
    let mut bodies: Vec<Vec<u8>> = Vec::new();
    for page in e_pages {
        let mut body = page.clone();
        body.resize(1024, 0);
        out.extend_from_slice(&body[..4]);
        out.extend_from_slice(&page_md5(&body));
        bodies.push(body);
    }
    for body in &bodies {
        out.extend_from_slice(body);
    }
    out
}

#[test]
fn read_asciiz_returns_each_terminated_string() {
    let data = b"abc\0\0de";
    let (s, next) = read_asciiz(data, 0).unwrap();
    assert_eq!(s, b"abc");
    assert_eq!(next, 4);
    let (s, next) = read_asciiz(data, next).unwrap();
    assert_eq!(s, b"");
    assert_eq!(next, 5);
    // The trailing segment has no terminator.
    assert!(read_asciiz(data, next).is_none());
}

#[test]
fn table_parses_pages_and_records() {
    let mut page1 = c_record(&[1, 1, 1, 1], 5, &[&[9, 9, 9, 9]]);
    page1.extend_from_slice(&c_record(&[2, 2, 2, 2], 7, &[&[8, 8, 8, 8], &[7, 7, 7, 7]]));
    let epage = e_record(&[9, 9, 9, 9], 0, 33);
    let data = table_bytes(b"z\0n\0", &[page1], &[epage]);
    let enc = Encoding::read_from(&data).unwrap();
    assert_eq!(enc.c_to_e_key_page_table.len(), 1);
    let page = &enc.c_to_e_key_page_table[0];
    assert_eq!(page.first_c_key, vec![1, 1, 1, 1]);
    assert_eq!(page.c_to_e_keys.len(), 2);
    assert_eq!(page.c_to_e_keys[0].c_size, 5);
    assert_eq!(page.c_to_e_keys[1].e_keys.len(), 2);
    let epage = &enc.e_key_spec_page_table[0];
    assert_eq!(epage.e_key_specs[0].e_key, vec![9, 9, 9, 9]);
    assert_eq!(epage.e_key_specs[0].e_spec, b"z");
    assert_eq!(epage.e_key_specs[0].e_size, 33);
}

#[test]
fn get_resolves_a_key_in_a_later_page() {
    // The key sits in the second page; the scan must pass through the first.
    let page1 = c_record(&[1, 1, 1, 1], 5, &[&[9, 9, 9, 9]]);
    let page2 = c_record(&[2, 2, 2, 2], 7, &[&[8, 8, 8, 8]]);
    let data = table_bytes(b"z\0", &[page1, page2], &[]);
    let enc = Encoding::read_from(&data).unwrap();
    assert_eq!(enc.get(&[2, 2, 2, 2]).unwrap(), vec![8, 8, 8, 8]);
    assert_eq!(enc.get(&[1, 1, 1, 1]).unwrap(), vec![9, 9, 9, 9]);
}

#[test]
fn get_reports_a_key_absent_from_all_pages() {
    let page1 = c_record(&[1, 1, 1, 1], 5, &[&[9, 9, 9, 9]]);
    let data = table_bytes(b"z\0", &[page1], &[]);
    let enc = Encoding::read_from(&data).unwrap();
    assert!(enc.get(&[3, 3, 3, 3]).is_none());
}

#[test]
fn get_returns_the_first_encoding_key() {
    let page = c_record(&[1, 1, 1, 1], 5, &[&[9, 9, 9, 9], &[8, 8, 8, 8]]);
    let data = table_bytes(b"", &[page], &[]);
    let enc = Encoding::read_from(&data).unwrap();
    assert_eq!(enc.get(&[1, 1, 1, 1]).unwrap(), vec![9, 9, 9, 9]);
}

#[test]
fn a_corrupt_page_is_an_integrity_error() {
    let page1 = c_record(&[1, 1, 1, 1], 5, &[&[9, 9, 9, 9]]);
    let data = table_bytes(b"z\0", &[page1], &[]);
    let mut bad = data.clone();
    let n = bad.len();
    bad[n - 1] ^= 1; // inside the page body
    assert_eq!(Encoding::read_from(&bad).unwrap_err(), TactError::IntegrityError);
}

#[test]
fn a_corrupt_encoding_key_page_is_an_integrity_error() {
    let epage = e_record(&[9, 9, 9, 9], 0, 33);
    let data = table_bytes(b"z\0", &[], &[epage]);
    let mut bad = data.clone();
    let n = bad.len();
    bad[n - 1] ^= 1;
    assert_eq!(Encoding::read_from(&bad).unwrap_err(), TactError::IntegrityError);
}

#[test]
fn an_empty_table_parses() {
    let data = table_bytes(b"", &[], &[]);
    let enc = Encoding::read_from(&data).unwrap();
    assert!(enc.c_to_e_key_page_table.is_empty());
    assert!(enc.e_key_spec_page_table.is_empty());
    assert!(enc.get(&[0, 0, 0, 0]).is_none());
}

#[test]
fn a_wrong_version_or_pad_byte_is_unsupported() {
    let data = table_bytes(b"", &[], &[]);
    let mut bad = data.clone();
    bad[2] = 2; // the version byte
    assert_eq!(Encoding::read_from(&bad).unwrap_err(), TactError::Unsupported);
    let mut bad = data.clone();
    bad[17] = 1; // the pad byte
    assert_eq!(Encoding::read_from(&bad).unwrap_err(), TactError::Unsupported);
}

#[test]
fn wrong_magic_and_truncation_are_unsupported() {
    let data = table_bytes(b"", &[], &[]);
    let mut bad = data.clone();
    bad[0] = b'X';
    assert_eq!(Encoding::read_from(&bad).unwrap_err(), TactError::Unsupported);
    let page1 = c_record(&[1, 1, 1, 1], 5, &[&[9, 9, 9, 9]]);
    let data = table_bytes(b"", &[page1], &[]);
    assert_eq!(Encoding::read_from(&data[..data.len() - 1]).unwrap_err(), TactError::Unsupported);
}

#[test]
fn a_zero_count_record_ends_its_page() {
    // The first record is followed by zero padding only; the padding must
    // not be taken for records.
    let page = c_record(&[1, 1, 1, 1], 5, &[&[9, 9, 9, 9]]);
    let data = table_bytes(b"", &[page], &[]);
    let enc = Encoding::read_from(&data).unwrap();
    assert_eq!(enc.c_to_e_key_page_table[0].c_to_e_keys.len(), 1);
}

#[test]
fn record_parsers_take_their_key_sizes_from_the_header() {
    // A 2-byte content key with 3-byte encoding keys.
    let mut body = vec![2u8]; // two encoding keys
    body.extend_from_slice(&9u64.to_be_bytes()[3..8]);
    body.extend_from_slice(&[0xAA, 0xBB]);
    body.extend_from_slice(&[1, 2, 3]);
    body.extend_from_slice(&[4, 5, 6]);
    let (rec, next) = CToEKey::read_from(&body, 0, 2, 3).unwrap();
    assert_eq!(rec.c_key, vec![0xAA, 0xBB]);
    assert_eq!(rec.c_size, 9);
    assert_eq!(rec.e_keys, vec![vec![1, 2, 3], vec![4, 5, 6]]);
    assert_eq!(next, body.len());
}

#[test]
fn record_parsers_stop_at_the_page_end() {
    let body = c_record(&[1, 1, 1, 1], 5, &[&[9, 9, 9, 9]]);
    let (rec, next) = CToEKey::read_from(&body, 0, 4, 4).unwrap();
    assert_eq!(rec.c_key, vec![1, 1, 1, 1]);
    assert_eq!(next, body.len());
    assert!(CToEKey::read_from(&body, next, 4, 4).is_none());
    let body = e_record(&[9, 9, 9, 9], 5, 33);
    let especs: Vec<Vec<u8>> = vec![b"z".to_vec()];
    let (rec, next) = EKeySpec::read_from(&body, 0, 4, &especs).unwrap();
    // An index past the spec-string list stands for the empty string.
    assert_eq!(rec.e_spec, b"");
    assert!(EKeySpec::read_from(&body, next, 4, &especs).is_none());
}
