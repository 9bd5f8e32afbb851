use std::io::{Read, Write};

use gitobj::errors::StoreError;
use gitobj::hashing::HashWriter;
use gitobj::kind::ObjectKind;
use gitobj::store::{load_object, store_object};

#[test]
fn store_hello_world_blob_yields_known_digest() {
    let content = b"hello world\n".to_vec();
    let stored = store_object(ObjectKind::Blob, &content);
    assert_eq!(
        stored.digest.to_hex(),
        "3b18e512dba79e4c8300dd08aeb37f8e728b8dad"
    );
}

#[test]
fn load_after_store_round_trips() {
    let content = b"hello world\n".to_vec();
    let stored = store_object(ObjectKind::Blob, &content);
    let object = load_object(&stored.compressed).expect("stored object must load");
    assert_eq!(object.kind, ObjectKind::Blob);
    assert_eq!(object.size, 12);
    assert_eq!(object.content, content);
}

#[test]
fn store_is_deterministic_across_calls() {
    let content = b"some file content".to_vec();
    let first = store_object(ObjectKind::Blob, &content);
    let second = store_object(ObjectKind::Blob, &content);
    assert_eq!(first.digest.bytes, second.digest.bytes);
    assert_eq!(first.compressed, second.compressed);
}

#[test]
fn empty_blob_has_known_digest() {
    let stored = store_object(ObjectKind::Blob, &Vec::new());
    assert_eq!(
        stored.digest.to_hex(),
        "e69de29bb2d1d6434b8b29ae775ad8c2e48c5391"
    );
    let object = load_object(&stored.compressed).expect("empty blob must load");
    assert_eq!(object.size, 0);
    assert!(object.content.is_empty());
}

#[test]
fn commit_round_trips_with_its_kind() {
    let content = b"tree 3b18e512dba79e4c8300dd08aeb37f8e728b8dad\n\nmessage\n".to_vec();
    let stored = store_object(ObjectKind::Commit, &content);
    let object = load_object(&stored.compressed).expect("commit must load");
    assert_eq!(object.kind, ObjectKind::Commit);
    assert_eq!(object.content, content);
}

#[test]
fn compressed_form_is_a_zlib_stream_not_the_plain_bytes() {
    let content = b"hello world\n".to_vec();
    let stored = store_object(ObjectKind::Blob, &content);
    // every zlib stream with a 32 KiB window starts with 0x78
    assert_eq!(stored.compressed[0], 0x78);
    assert_ne!(stored.compressed, b"blob 12\0hello world\n".to_vec());
}

#[test]
fn compressed_form_decodes_to_the_canonical_bytes() {
    let content = b"hello world\n".to_vec();
    let stored = store_object(ObjectKind::Blob, &content);
    let mut decoder = flate2::read::ZlibDecoder::new(stored.compressed.as_slice());
    let mut plain = Vec::new();
    decoder.read_to_end(&mut plain).expect("stream must decode");
    assert_eq!(plain, b"blob 12\0hello world\n".to_vec());
}

#[test]
fn load_of_garbage_bytes_is_corrupt() {
    let garbage = b"this is not a zlib stream at all".to_vec();
    assert_eq!(load_object(&garbage).unwrap_err(), StoreError::Corrupt);
}

#[test]
fn load_of_unknown_kind_is_unsupported() {
    let canonical = b"blorb 3\0abc".to_vec();
    let mut encoder =
        flate2::write::ZlibEncoder::new(Vec::new(), flate2::Compression::default());
    encoder.write_all(&canonical).expect("write must succeed");
    let compressed = encoder.finish().expect("finish must succeed");
    assert_eq!(load_object(&compressed).unwrap_err(), StoreError::UnsupportedKind);
}

#[test]
fn load_of_size_mismatch_is_corrupt() {
    let canonical = b"blob 5\0abc".to_vec();
    let mut encoder =
        flate2::write::ZlibEncoder::new(Vec::new(), flate2::Compression::default());
    encoder.write_all(&canonical).expect("write must succeed");
    let compressed = encoder.finish().expect("finish must succeed");
    assert_eq!(load_object(&compressed).unwrap_err(), StoreError::Corrupt);
}

#[test]
fn hash_writer_digest_ignores_write_boundaries() {
    let mut one = HashWriter::new();
    one.write(&b"hello ".to_vec());
    one.write(&b"world\n".to_vec());
    let (digest_split, bytes_split) = one.finish();

    let mut two = HashWriter::new();
    two.write(&b"hello world\n".to_vec());
    let (digest_whole, bytes_whole) = two.finish();

    assert_eq!(digest_split, digest_whole);
    assert_eq!(bytes_split, bytes_whole);
    assert_eq!(bytes_whole, b"hello world\n".to_vec());
}

#[test]
fn hash_writer_digest_is_sha1_of_the_bytes() {
    let mut sink = HashWriter::new();
    sink.write(&b"blob 12\0".to_vec());
    sink.write(&b"hello world\n".to_vec());
    let (digest, _) = sink.finish();
    assert_eq!(
        hex::encode(&digest),
        "3b18e512dba79e4c8300dd08aeb37f8e728b8dad"
    );
}
