use gitobj::digest::Digest;
use gitobj::errors::StoreError;
use gitobj::tree::{decode_tree, encode_tree, TreeEntry};

fn sample_digest(seed: u8) -> Digest {
    let mut bytes = Vec::new();
    for i in 0..20u8 {
        bytes.push(seed.wrapping_add(i));
    }
    Digest::from_bytes(bytes)
}

fn sample_entries() -> Vec<TreeEntry> {
    vec![
        TreeEntry {
            mode: b"100644".to_vec(),
            name: b"zebra.txt".to_vec(),
            id: sample_digest(1),
        },
        TreeEntry {
            mode: b"40000".to_vec(),
            name: b"alpha".to_vec(),
            id: sample_digest(40),
        },
        TreeEntry {
            mode: b"120000".to_vec(),
            name: b"a link name".to_vec(),
            id: sample_digest(200),
        },
    ]
}

#[test]
fn encode_then_decode_returns_entries_in_order() {
    let entries = sample_entries();
    let encoded = encode_tree(&entries);
    let decoded = decode_tree(&encoded).expect("encoded tree must decode");
    assert_eq!(decoded.len(), entries.len());
    for (d, e) in decoded.iter().zip(entries.iter()) {
        assert_eq!(d.mode, e.mode);
        assert_eq!(d.name, e.name);
        assert_eq!(d.id.bytes, e.id.bytes);
    }
    // the decoder must keep encoded order: zebra before alpha
    assert_eq!(decoded[0].name, b"zebra.txt".to_vec());
    assert_eq!(decoded[1].name, b"alpha".to_vec());
}

#[test]
fn empty_tree_decodes_to_no_entries() {
    let decoded = decode_tree(&Vec::new()).expect("empty content is a valid tree");
    assert!(decoded.is_empty());
}

#[test]
fn encoding_matches_the_on_disk_grammar() {
    let entries = vec![TreeEntry {
        mode: b"100644".to_vec(),
        name: b"f".to_vec(),
        id: Digest::from_bytes(vec![0xab; 20]),
    }];
    let encoded = encode_tree(&entries);
    let mut expected = b"100644 f\0".to_vec();
    expected.extend_from_slice(&[0xab; 20]);
    assert_eq!(encoded, expected);
}

#[test]
fn truncated_final_hash_is_corrupt() {
    let entries = sample_entries();
    let encoded = encode_tree(&entries);
    for missing in [1usize, 5, 19, 20] {
        let truncated = encoded[..encoded.len() - missing].to_vec();
        assert_eq!(
            decode_tree(&truncated).unwrap_err(),
            StoreError::Corrupt,
            "missing {missing} trailing bytes must be corrupt"
        );
    }
}

#[test]
fn partial_mode_or_name_is_corrupt() {
    // a lone mode fragment: no space ever arrives
    assert_eq!(decode_tree(&b"1006".to_vec()).unwrap_err(), StoreError::Corrupt);
    // mode and space but the name never ends
    assert_eq!(
        decode_tree(&b"100644 unfinished".to_vec()).unwrap_err(),
        StoreError::Corrupt
    );
    // an empty mode field
    assert_eq!(decode_tree(&b" name\0".to_vec()).unwrap_err(), StoreError::Corrupt);
}

#[test]
fn non_text_bytes_in_name_are_an_encoding_error() {
    let mut data = b"100644 bad".to_vec();
    data.push(0x07);
    data.extend_from_slice(b"name\0");
    data.extend_from_slice(&[0u8; 20]);
    assert_eq!(decode_tree(&data).unwrap_err(), StoreError::Encoding);
}

#[test]
fn non_text_bytes_in_mode_are_an_encoding_error() {
    let mut data = vec![0xffu8];
    data.extend_from_slice(b"00644 name\0");
    data.extend_from_slice(&[0u8; 20]);
    assert_eq!(decode_tree(&data).unwrap_err(), StoreError::Encoding);
}

#[test]
fn decoder_does_not_resort_entries() {
    // names deliberately out of lexicographic order
    let entries = vec![
        TreeEntry {
            mode: b"100644".to_vec(),
            name: b"b".to_vec(),
            id: sample_digest(2),
        },
        TreeEntry {
            mode: b"100644".to_vec(),
            name: b"a".to_vec(),
            id: sample_digest(3),
        },
    ];
    let decoded = decode_tree(&encode_tree(&entries)).expect("must decode");
    assert_eq!(decoded[0].name, b"b".to_vec());
    assert_eq!(decoded[1].name, b"a".to_vec());
}
