use gitobj::codec::{encode_object, parse_object, parse_object_header};
use gitobj::decimal::{encode_dec, parse_size};
use gitobj::errors::StoreError;
use gitobj::kind::{parse_kind, ObjectKind};

#[test]
fn canonical_bytes_are_header_then_content() {
    let content = b"hello world\n".to_vec();
    let encoded = encode_object(ObjectKind::Blob, &content);
    assert_eq!(encoded, b"blob 12\0hello world\n".to_vec());
}

#[test]
fn header_parses_kind_and_size() {
    let header = b"blob 12".to_vec();
    assert_eq!(parse_object_header(&header), Ok((ObjectKind::Blob, 12)));
    let header = b"commit 0".to_vec();
    assert_eq!(parse_object_header(&header), Ok((ObjectKind::Commit, 0)));
}

#[test]
fn header_with_unknown_kind_is_unsupported() {
    let header = b"blorb 3".to_vec();
    assert_eq!(
        parse_object_header(&header),
        Err(StoreError::UnsupportedKind)
    );
}

#[test]
fn header_without_space_is_corrupt() {
    let header = b"blob".to_vec();
    assert_eq!(parse_object_header(&header), Err(StoreError::Corrupt));
}

#[test]
fn header_with_bad_size_is_corrupt() {
    assert_eq!(
        parse_object_header(&b"blob twelve".to_vec()),
        Err(StoreError::Corrupt)
    );
    assert_eq!(
        parse_object_header(&b"blob ".to_vec()),
        Err(StoreError::Corrupt)
    );
    assert_eq!(
        parse_object_header(&b"blob 99999999999999999999999999999999".to_vec()),
        Err(StoreError::Corrupt)
    );
}

#[test]
fn object_without_nul_is_corrupt() {
    let data = b"blob 12 hello".to_vec();
    assert_eq!(parse_object(&data).unwrap_err(), StoreError::Corrupt);
}

#[test]
fn object_with_wrong_declared_size_is_corrupt() {
    let data = b"blob 5\0abc".to_vec();
    assert_eq!(parse_object(&data).unwrap_err(), StoreError::Corrupt);
    let data = b"blob 1\0abc".to_vec();
    assert_eq!(parse_object(&data).unwrap_err(), StoreError::Corrupt);
}

#[test]
fn object_parses_back_exactly() {
    let data = b"tree 3\0abc".to_vec();
    let object = parse_object(&data).expect("well-formed object must parse");
    assert_eq!(object.kind, ObjectKind::Tree);
    assert_eq!(object.size, 3);
    assert_eq!(object.content, b"abc".to_vec());
}

#[test]
fn kind_literals_parse_exactly() {
    assert_eq!(parse_kind(&b"blob".to_vec()), Some(ObjectKind::Blob));
    assert_eq!(parse_kind(&b"tree".to_vec()), Some(ObjectKind::Tree));
    assert_eq!(parse_kind(&b"commit".to_vec()), Some(ObjectKind::Commit));
    assert_eq!(parse_kind(&b"Blob".to_vec()), None);
    assert_eq!(parse_kind(&b"blobs".to_vec()), None);
    assert_eq!(parse_kind(&b"tag".to_vec()), None);
    assert_eq!(parse_kind(&b"".to_vec()), None);
}

#[test]
fn kind_literal_bytes_and_names_agree() {
    assert_eq!(ObjectKind::Blob.literal_bytes(), b"blob".to_vec());
    assert_eq!(ObjectKind::Tree.literal_bytes(), b"tree".to_vec());
    assert_eq!(ObjectKind::Commit.literal_bytes(), b"commit".to_vec());
    assert_eq!(ObjectKind::Blob.name(), "blob");
    assert_eq!(ObjectKind::Tree.name(), "tree");
    assert_eq!(ObjectKind::Commit.name(), "commit");
}

#[test]
fn decimal_encoding_has_no_leading_zeros() {
    assert_eq!(encode_dec(0), b"0".to_vec());
    assert_eq!(encode_dec(7), b"7".to_vec());
    assert_eq!(encode_dec(1234567), b"1234567".to_vec());
}

#[test]
fn decimal_parsing_accepts_digits_only() {
    assert_eq!(parse_size(&b"0".to_vec()), Some(0));
    assert_eq!(parse_size(&b"0042".to_vec()), Some(42));
    assert_eq!(parse_size(&b"1234567".to_vec()), Some(1234567));
    assert_eq!(parse_size(&b"".to_vec()), None);
    assert_eq!(parse_size(&b"12a".to_vec()), None);
    assert_eq!(parse_size(&b"-1".to_vec()), None);
    assert_eq!(parse_size(&b"99999999999999999999999999999999".to_vec()), None);
}
