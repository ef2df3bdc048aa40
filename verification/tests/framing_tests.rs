use casc::asset_io::AssetIo;
use casc::chunked_data::ChunkedData;
use casc::tact_manifest::ContentManifestAsset;

fn frame(id: u32, chunks: &[(u32, u16, u16, &[u8])]) -> Vec<u8> {
    let mut out = Vec::new();
    out.extend_from_slice(&0xF123456Fu32.to_le_bytes());
    out.extend_from_slice(&id.to_le_bytes());
    out.extend_from_slice(&[0u8; 8]);
    for (cid, tag, version, data) in chunks {
        out.extend_from_slice(&cid.to_le_bytes());
        out.extend_from_slice(&(16 + data.len() as u32).to_le_bytes());
        out.extend_from_slice(&(data.len() as u32).to_le_bytes());
        out.extend_from_slice(&tag.to_le_bytes());
        out.extend_from_slice(&version.to_le_bytes());
        out.extend_from_slice(data);
    }
    out
}

#[test]
fn framed_chunks_parse_in_order() {
    let data = frame(7, &[(1, 10, 2, b"abc"), (2, 20, 3, b"")]);
    let c = ChunkedData::read_from(&data).unwrap();
    assert_eq!(c.id, 7);
    assert_eq!(c.chunks.len(), 2);
    assert_eq!(c.chunks[0].id, 1);
    assert_eq!(c.chunks[0].tag, 10);
    assert_eq!(c.chunks[0].version, 2);
    assert_eq!(c.chunks[0].data, b"abc");
    assert_eq!(c.chunks[1].id, 2);
    assert_eq!(c.chunks[1].data, b"");
}

#[test]
fn a_truncated_chunk_is_rejected() {
    let data = frame(7, &[(1, 10, 2, b"abc")]);
    // Cutting into the declared data leaves a chunk that does not fit.
    assert!(ChunkedData::read_from(&data[..data.len() - 1]).is_none());
    // Cutting into a chunk head likewise.
    assert!(ChunkedData::read_from(&data[..22]).is_none());
}

#[test]
fn leftover_bytes_shorter_than_an_id_end_the_frame() {
    let mut data = frame(7, &[(1, 10, 2, b"abc")]);
    data.extend_from_slice(&[0u8; 3]);
    let c = ChunkedData::read_from(&data).unwrap();
    assert_eq!(c.chunks.len(), 1);
}

fn asset(guid: u64, md5: u8) -> ContentManifestAsset {
    ContentManifestAsset { guid, size: 1, unknown_0c: 0, md5: vec![md5; 16] }
}

#[test]
fn asset_table_resolves_identifiers() {
    let table = AssetIo::from_assets(&vec![asset(10, 1), asset(11, 2)]);
    assert_eq!(table.content_key(10).unwrap(), &vec![1u8; 16]);
    assert_eq!(table.content_key(11).unwrap(), &vec![2u8; 16]);
    assert!(table.content_key(12).is_none());
}

#[test]
fn a_later_manifest_record_shadows_an_earlier_one() {
    let table = AssetIo::from_assets(&vec![asset(10, 1), asset(10, 2)]);
    assert_eq!(table.content_key(10).unwrap(), &vec![2u8; 16]);
}
