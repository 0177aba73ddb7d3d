use polymorph::error::Error;
use polymorph::tact::archive::ArchiveIndex;
use polymorph::tact::btle::{decode_blte, encode_blte_raw};
use polymorph::tact::common::CKey;
use polymorph::tact::root::RootFile;

fn be32(v: u32) -> [u8; 4] {
    v.to_be_bytes()
}

fn le32(v: u32) -> [u8; 4] {
    v.to_le_bytes()
}

fn key(n: u8) -> CKey {
    let mut bytes = [0u8; 16];
    bytes[0] = n;
    bytes[15] = n.wrapping_add(1);
    CKey { bytes }
}

/// A chunked container: magic, header size, chunk count, then per chunk the
/// compressed size, decompressed size and checksum, then the payloads.
fn chunked(chunks: &[(Vec<u8>, u32, [u8; 16])]) -> Vec<u8> {
    let n = chunks.len() as u32;
    let mut out = Vec::new();
    out.extend_from_slice(b"BLTE");
    out.extend_from_slice(&be32(12 + 24 * n));
    out.extend_from_slice(&be32(n));
    for (payload, decomp, sum) in chunks {
        out.extend_from_slice(&be32(payload.len() as u32));
        out.extend_from_slice(&be32(*decomp));
        out.extend_from_slice(sum);
    }
    for (payload, _, _) in chunks {
        out.extend_from_slice(payload);
    }
    out
}

fn md5_of(data: &[u8]) -> [u8; 16] {
    md5::compute(data).0
}

#[test]
fn raw_round_trip_is_identity() {
    let payload = b"the quick brown fox".to_vec();
    let blob = encode_blte_raw(&payload);
    assert_eq!(decode_blte(&blob).unwrap(), payload);

    let empty: Vec<u8> = Vec::new();
    let blob = encode_blte_raw(&empty);
    assert_eq!(decode_blte(&blob).unwrap(), empty);
}

#[test]
fn single_raw_chunk_returns_payload_exactly() {
    let mut blob = b"BLTE".to_vec();
    blob.extend_from_slice(&be32(0));
    blob.push(b'N');
    blob.extend_from_slice(&[9, 8, 7, 6]);
    assert_eq!(decode_blte(&blob).unwrap(), vec![9, 8, 7, 6]);
}

#[test]
fn deflate_chunk_inflates_to_declared_size() {
    let payload: Vec<u8> = (0..200u16).map(|i| (i % 7) as u8).collect();
    let mut chunk = vec![b'Z'];
    chunk.extend_from_slice(&miniz_oxide::deflate::compress_to_vec_zlib(&payload, 6));
    let sum = md5_of(&chunk);
    let blob = chunked(&[(chunk, payload.len() as u32, sum)]);
    assert_eq!(decode_blte(&blob).unwrap(), payload);
}

#[test]
fn multi_chunk_output_concatenates_in_order() {
    let c1 = b"Nabc".to_vec();
    let c2 = b"Ndef".to_vec();
    let s1 = md5_of(&c1);
    let s2 = md5_of(&c2);
    let blob = chunked(&[(c1, 3, s1), (c2, 3, s2)]);
    assert_eq!(decode_blte(&blob).unwrap(), b"abcdef".to_vec());
}

#[test]
fn checksum_mismatch_yields_error_and_no_output() {
    let chunk = b"Nabc".to_vec();
    let mut sum = md5_of(&chunk);
    sum[0] ^= 0xff;
    let blob = chunked(&[(chunk, 3, sum)]);
    assert_eq!(decode_blte(&blob), Err(Error::ChecksumMismatch));
}

#[test]
fn unsupported_modes_fail_distinctly() {
    let chunk = b"Eabc".to_vec();
    let sum = md5_of(&chunk);
    let blob = chunked(&[(chunk, 3, sum)]);
    assert_eq!(decode_blte(&blob), Err(Error::UnsupportedEncoding));

    let chunk = b"Fabc".to_vec();
    let sum = md5_of(&chunk);
    let blob = chunked(&[(chunk, 3, sum)]);
    assert_eq!(decode_blte(&blob), Err(Error::UnsupportedEncoding));
}

#[test]
fn truncated_chunk_yields_truncated_input() {
    let chunk = b"Nabc".to_vec();
    let sum = md5_of(&chunk);
    let mut blob = chunked(&[(chunk, 3, sum)]);
    blob.truncate(blob.len() - 2);
    assert_eq!(decode_blte(&blob), Err(Error::TruncatedInput));
}

#[test]
fn malformed_headers_are_rejected() {
    assert_eq!(decode_blte(b"BLT"), Err(Error::MalformedFormat));
    assert_eq!(decode_blte(b"XXXX\x00\x00\x00\x00N"), Err(Error::MalformedFormat));
    // declared header size inconsistent with the chunk count
    let mut blob = b"BLTE".to_vec();
    blob.extend_from_slice(&be32(13));
    blob.extend_from_slice(&be32(0));
    blob.push(0);
    assert_eq!(decode_blte(&blob), Err(Error::MalformedFormat));
    // zero header size with no chunk byte at all
    let mut blob = b"BLTE".to_vec();
    blob.extend_from_slice(&be32(0));
    assert_eq!(decode_blte(&blob), Err(Error::TruncatedInput));
}

#[test]
fn empty_chunk_has_no_mode_byte() {
    let chunk: Vec<u8> = Vec::new();
    let sum = md5_of(&chunk);
    let blob = chunked(&[(chunk, 0, sum)]);
    assert_eq!(decode_blte(&blob), Err(Error::TruncatedInput));
}

#[test]
fn trailing_bytes_after_last_chunk_are_malformed() {
    let chunk = b"Nabc".to_vec();
    let sum = md5_of(&chunk);
    let mut blob = chunked(&[(chunk, 3, sum)]);
    blob.push(0);
    assert_eq!(decode_blte(&blob), Err(Error::MalformedFormat));
}

#[test]
fn declared_size_mismatch_is_malformed() {
    let chunk = b"Nabc".to_vec();
    let sum = md5_of(&chunk);
    let blob = chunked(&[(chunk, 4, sum)]);
    assert_eq!(decode_blte(&blob), Err(Error::MalformedFormat));
}

fn root_block(deltas: &[u32], entries: &[(CKey, u64)]) -> Vec<u8> {
    let mut out = Vec::new();
    out.extend_from_slice(&le32(deltas.len() as u32));
    out.extend_from_slice(&le32(0));
    out.extend_from_slice(&le32(0));
    for d in deltas {
        out.extend_from_slice(&le32(*d));
    }
    for (k, nh) in entries {
        out.extend_from_slice(&k.bytes);
        out.extend_from_slice(&nh.to_le_bytes());
    }
    out
}

#[test]
fn root_delta_decoding_law() {
    let e0 = key(0xa0);
    let e1 = key(0xb0);
    let payload = root_block(&[0, 2], &[(e0, 11), (e1, 22)]);
    let blob = encode_blte_raw(&payload);
    let root = RootFile::parse(&blob).unwrap();
    assert_eq!(root.file_id_to_entry.len(), 2);
    assert_eq!(root.get_ckey_for_file_id(0), Some(&e0));
    assert_eq!(root.get_ckey_for_file_id(3), Some(&e1));
    assert_eq!(root.get_ckey_for_file_id(1), None);
    assert_eq!(root.get_ckey_for_file_id(2), None);
}

#[test]
fn root_lookup_never_inserted_is_none() {
    let payload = root_block(&[5], &[(key(1), 7)]);
    let blob = encode_blte_raw(&payload);
    let root = RootFile::parse(&blob).unwrap();
    assert_eq!(root.get_ckey_for_file_id(5), Some(&key(1)));
    assert_eq!(root.get_ckey_for_file_id(0), None);
    assert_eq!(root.get_ckey_for_file_id(4), None);
    assert_eq!(root.get_ckey_for_file_id(6), None);
    assert_eq!(root.get_ckey_for_file_id(u32::MAX), None);
}

#[test]
fn root_truncated_block_keeps_earlier_blocks() {
    let b1 = root_block(&[0, 0, 0], &[(key(1), 1), (key(2), 2), (key(3), 3)]);
    let mut b2 = root_block(&[100], &[(key(4), 4)]);
    b2.truncate(b2.len() - 5);
    let mut payload = b1;
    payload.extend_from_slice(&b2);
    let blob = encode_blte_raw(&payload);
    let root = RootFile::parse(&blob).unwrap();
    // the mapping size equals the first block's declared entry count
    assert_eq!(root.file_id_to_entry.len(), 3);
    assert_eq!(root.get_ckey_for_file_id(0), Some(&key(1)));
    assert_eq!(root.get_ckey_for_file_id(1), Some(&key(2)));
    assert_eq!(root.get_ckey_for_file_id(2), Some(&key(3)));
    assert_eq!(root.get_ckey_for_file_id(100), None);
}

#[test]
fn root_duplicate_id_last_write_wins() {
    // both blocks insert file id 0; the later insertion overwrites
    let mut payload = root_block(&[0], &[(key(1), 1)]);
    payload.extend_from_slice(&root_block(&[0], &[(key(2), 2)]));
    let blob = encode_blte_raw(&payload);
    let root = RootFile::parse(&blob).unwrap();
    assert_eq!(root.file_id_to_entry.len(), 1);
    assert_eq!(root.get_ckey_for_file_id(0), Some(&key(2)));
}

#[test]
fn ckey_equality_is_byte_exact() {
    assert_eq!(key(3), key(3));
    assert_ne!(key(3), key(4));
    let mut bytes = key(3).bytes;
    bytes[15] ^= 1;
    assert_ne!(key(3), CKey { bytes });
}

#[test]
fn root_propagates_container_errors() {
    assert!(matches!(RootFile::parse(b"BLT"), Err(Error::MalformedFormat)));
}

fn index_record(k: &CKey, offset: u64, size: u32) -> Vec<u8> {
    let mut out = Vec::new();
    out.extend_from_slice(&k.bytes);
    out.extend_from_slice(&offset.to_be_bytes());
    out.extend_from_slice(&size.to_be_bytes());
    out
}

#[test]
fn archive_index_parses_fixed_records() {
    let akey = key(0x11);
    let k1 = key(0x21);
    let k2 = key(0x22);
    let mut data = index_record(&k1, 100, 10);
    data.extend_from_slice(&index_record(&k2, 200, 20));
    let idx = ArchiveIndex::parse(&akey, &data).unwrap();
    assert_eq!(idx.len(), 2);
    assert_eq!(idx.key, akey);
    assert_eq!(idx.entries[0].key, k1);
    assert_eq!(idx.entries[0].archive_key, akey);
    assert_eq!(idx.entries[0].offset, 100);
    assert_eq!(idx.entries[0].size, 10);
    assert_eq!(idx.entries[1].offset, 200);
}

#[test]
fn archive_index_rejects_trailing_bytes() {
    let akey = key(0x11);
    let mut data = index_record(&key(0x21), 100, 10);
    data.push(0);
    assert!(matches!(ArchiveIndex::parse(&akey, &data), Err(Error::MalformedFormat)));
}

#[test]
fn ckey_hex_rendering() {
    let mut bytes = [0u8; 16];
    bytes[0] = 0xab;
    bytes[1] = 0x01;
    bytes[15] = 0xff;
    let k = CKey { bytes };
    let mut expect = b"ab01".to_vec();
    expect.extend_from_slice(&[b'0'; 26]);
    expect.extend_from_slice(b"ff");
    assert_eq!(k.hex(), expect);
}
