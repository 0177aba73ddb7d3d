use std::collections::HashMap;

use polymorph::cdn::{cdn_path, CDNFetcher, FetchOutcome};
use polymorph::config::{
    parse_cdns_hosts, parse_config_keys, parse_hex_key, parse_versions_build_key, split_bytes,
};
use polymorph::error::Error;
use polymorph::tact::archive::{ArchiveEntry, ArchiveIndex};
use polymorph::tact::btle::encode_blte_raw;
use polymorph::tact::common::CKey;
use polymorph::tact::root::{RootFile, RootFileEntry};

fn key(n: u8) -> CKey {
    let mut bytes = [0u8; 16];
    bytes[0] = n;
    CKey { bytes }
}

fn root_of(pairs: &[(u32, CKey)]) -> RootFile {
    let mut file_id_to_entry = HashMap::new();
    for (id, k) in pairs {
        file_id_to_entry.insert(*id, RootFileEntry { ckey: *k, name_hash: 0 });
    }
    RootFile { file_id_to_entry }
}

#[test]
fn fetch_file_id_is_idempotent_and_cache_consistent() {
    let ckey = key(0x42);
    let akey = key(0x99);
    let payload = b"decoded payload".to_vec();
    let blob = encode_blte_raw(&payload);
    let entry = ArchiveEntry { key: ckey, archive_key: akey, offset: 0, size: blob.len() as u32 };
    let root = root_of(&[(7, ckey)]);
    let idx = ArchiveIndex { key: akey, entries: vec![entry] };
    let mut fetcher = CDNFetcher::init_from_parts(root, vec![idx], b"wow".to_vec());

    let mut network_calls = 0;
    let first = loop {
        match fetcher.poll_fetch_file_id(7) {
            FetchOutcome::Data(d) => break d,
            FetchOutcome::Need(path, k) => {
                network_calls += 1;
                assert_eq!(k, akey);
                assert_eq!(path, cdn_path(b"wow", b"data", &akey));
                fetcher.provide_blob(&k, blob.clone());
            },
            FetchOutcome::Fail(e) => panic!("unexpected failure {:?}", e),
        }
    };
    assert_eq!(first, payload);
    assert_eq!(network_calls, 1);

    // the second call is answered from the cache: same bytes, no retrieval
    match fetcher.poll_fetch_file_id(7) {
        FetchOutcome::Data(second) => assert_eq!(second, first),
        other => panic!("expected cached data, got {:?}", other),
    }
    assert_eq!(network_calls, 1);
}

#[test]
fn fetch_file_id_not_found_cases() {
    let ckey = key(0x42);
    let root = root_of(&[(7, ckey)]);
    let fetcher = CDNFetcher::init_from_parts(root, vec![], b"wow".to_vec());
    // id absent from the root index
    assert!(matches!(fetcher.poll_fetch_file_id(8), FetchOutcome::Fail(Error::NotFound)));
    // id present in root, key absent from every archive index
    assert!(matches!(fetcher.poll_fetch_file_id(7), FetchOutcome::Fail(Error::NotFound)));
}

#[test]
fn archive_merge_later_index_wins() {
    let ckey = key(0x42);
    let a1 = key(0x01);
    let a2 = key(0x02);
    let e1 = ArchiveEntry { key: ckey, archive_key: a1, offset: 100, size: 10 };
    let e2 = ArchiveEntry { key: ckey, archive_key: a2, offset: 200, size: 20 };
    let other = key(0x50);
    let e3 = ArchiveEntry { key: other, archive_key: a1, offset: 1, size: 2 };
    let idx_a = ArchiveIndex { key: a1, entries: vec![e1, e3] };
    let idx_b = ArchiveIndex { key: a2, entries: vec![e2] };
    let fetcher = CDNFetcher::init_from_parts(root_of(&[]), vec![idx_a, idx_b], b"wow".to_vec());

    let found = fetcher.lookup(&ckey).expect("key present in both indices");
    assert_eq!(found.offset, 200);
    assert_eq!(found.size, 20);
    assert_eq!(found.archive_key, a2);
    // a key only in the first index is still there
    assert_eq!(fetcher.lookup(&other).expect("kept").offset, 1);
    // a key in neither is a clean not-found
    assert!(fetcher.lookup(&key(0x77)).is_none());
}

#[test]
fn out_of_range_entry_fails_without_output() {
    let ckey = key(0x42);
    let akey = key(0x99);
    let blob = encode_blte_raw(b"x");
    let entry = ArchiveEntry {
        key: ckey,
        archive_key: akey,
        offset: 4,
        size: blob.len() as u32,  // range runs past the end of the blob
    };
    let root = root_of(&[(7, ckey)]);
    let idx = ArchiveIndex { key: akey, entries: vec![entry] };
    let mut fetcher = CDNFetcher::init_from_parts(root, vec![idx], b"wow".to_vec());
    fetcher.provide_blob(&akey, blob);
    assert!(matches!(fetcher.poll_fetch_file_id(7), FetchOutcome::Fail(Error::MalformedFormat)));
}

#[test]
fn fetch_archive_is_idempotent() {
    let akey = key(0x99);
    let mut fetcher = CDNFetcher::init_from_parts(root_of(&[]), vec![], b"wow".to_vec());
    let path = fetcher.poll_fetch_archive(&akey).expect("not cached yet");
    assert_eq!(path, cdn_path(b"wow", b"data", &akey));
    fetcher.provide_blob(&akey, b"archive bytes".to_vec());
    // already cached: a no-op success
    assert!(fetcher.poll_fetch_archive(&akey).is_none());
}

#[test]
fn cdn_path_is_sharded_by_hex_prefix() {
    let mut bytes = [0u8; 16];
    bytes[0] = 0xab;
    bytes[1] = 0x01;
    let k = CKey { bytes };
    let path = cdn_path(b"wow", b"data", &k);
    let mut expect = b"wow/data/ab/01/ab01".to_vec();
    expect.extend_from_slice(&[b'0'; 28]);
    assert_eq!(path, expect);
}

#[test]
fn split_bytes_keeps_empty_pieces() {
    let pieces = split_bytes(b"a|b||c", b'|');
    let views: Vec<&[u8]> = pieces.iter().map(|p| p.as_slice()).collect();
    assert_eq!(views, vec![b"a" as &[u8], b"b", b"", b"c"]);
    assert_eq!(split_bytes(b"", b'|').len(), 1);
}

#[test]
fn versions_manifest_yields_build_key() {
    let hex = b"0123456789abcdef0123456789abcdef";
    let mut data = b"Region!STRING:0|BuildConfig!HEX:16|CDNConfig!HEX:16\n".to_vec();
    data.extend_from_slice(b"us|");
    data.extend_from_slice(hex);
    data.extend_from_slice(b"|ffffffffffffffffffffffffffffffff\n");
    data.extend_from_slice(b"eu|ffffffffffffffffffffffffffffffff|aaaaaaaaaaaaaaaaaaaaaaaaaaaaaaaa\n");
    let k = parse_versions_build_key(&data, b"us").unwrap();
    let expect = [0x01u8, 0x23, 0x45, 0x67, 0x89, 0xab, 0xcd, 0xef, 0x01, 0x23, 0x45, 0x67, 0x89,
        0xab, 0xcd, 0xef];
    assert_eq!(k.bytes, expect);
    // a region the manifest does not list is a configuration-fetch failure
    assert_eq!(parse_versions_build_key(&data, b"kr"), Err(Error::ConfigFetchError));
}

#[test]
fn versions_manifest_bad_hex_is_config_error() {
    let data = b"us|nothexnothexnothexnothexnothexno|x\n";
    assert_eq!(parse_versions_build_key(data, b"us"), Err(Error::ConfigFetchError));
}

#[test]
fn cdns_manifest_yields_host_list() {
    let data = b"Name!STRING:0|Hosts!STRING:0\nus|cdn1.example cdn2.example|extra\n";
    let hosts = parse_cdns_hosts(data, b"us").unwrap();
    let views: Vec<&[u8]> = hosts.iter().map(|h| h.as_slice()).collect();
    assert_eq!(views, vec![b"cdn1.example" as &[u8], b"cdn2.example"]);
}

#[test]
fn config_blob_yields_named_keys() {
    let mut data = b"root = 0123456789abcdef0123456789abcdef\n".to_vec();
    data.extend_from_slice(b"archives = ffffffffffffffffffffffffffffffff 000102030405060708090a0b0c0d0e0f\n");
    let root_keys = parse_config_keys(&data, b"root").unwrap();
    assert_eq!(root_keys.len(), 1);
    assert_eq!(root_keys[0].bytes[0], 0x01);
    let archives = parse_config_keys(&data, b"archives").unwrap();
    assert_eq!(archives.len(), 2);
    assert_eq!(archives[0].bytes, [0xffu8; 16]);
    assert_eq!(
        archives[1],
        parse_hex_key(b"000102030405060708090a0b0c0d0e0f").unwrap()
    );
    // an absent name is a configuration-fetch failure
    assert_eq!(parse_config_keys(&data, b"patch"), Err(Error::ConfigFetchError));
    // a bad key in the list is too
    let bad = b"archives = zzffffffffffffffffffffffffffffff\n";
    assert_eq!(parse_config_keys(bad, b"archives"), Err(Error::ConfigFetchError));
}

#[test]
fn error_messages_are_distinct() {
    assert_ne!(Error::NotFound.message(), Error::MalformedFormat.message());
    assert_ne!(Error::NetworkError.message(), Error::IOError.message());
    assert_ne!(Error::ChecksumMismatch.message(), Error::UnsupportedEncoding.message());
    assert_ne!(Error::ConfigFetchError.message(), Error::TruncatedInput.message());
}
