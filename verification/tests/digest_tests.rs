use gitobj::digest::Digest;

#[test]
fn to_hex_renders_forty_lowercase_characters() {
    let digest = Digest::from_bytes(vec![
        0x3b, 0x18, 0xe5, 0x12, 0xdb, 0xa7, 0x9e, 0x4c, 0x83, 0x00, 0xdd, 0x08, 0xae, 0xb3,
        0x7f, 0x8e, 0x72, 0x8b, 0x8d, 0xad,
    ]);
    assert_eq!(digest.to_hex(), "3b18e512dba79e4c8300dd08aeb37f8e728b8dad");
}

#[test]
fn path_pieces_split_two_then_thirty_eight() {
    let digest = Digest::from_bytes(vec![
        0x3b, 0x18, 0xe5, 0x12, 0xdb, 0xa7, 0x9e, 0x4c, 0x83, 0x00, 0xdd, 0x08, 0xae, 0xb3,
        0x7f, 0x8e, 0x72, 0x8b, 0x8d, 0xad,
    ]);
    assert_eq!(digest.dir_name(), "3b");
    assert_eq!(digest.file_name(), "18e512dba79e4c8300dd08aeb37f8e728b8dad");
}

#[test]
fn from_hex_round_trips_with_to_hex() {
    let text = b"3b18e512dba79e4c8300dd08aeb37f8e728b8dad".to_vec();
    let digest = Digest::from_hex(&text).expect("valid hex must decode");
    assert_eq!(digest.to_hex().as_bytes(), text.as_slice());
}

#[test]
fn from_hex_accepts_uppercase_digits() {
    let text = b"3B18E512DBA79E4C8300DD08AEB37F8E728B8DAD".to_vec();
    let digest = Digest::from_hex(&text).expect("uppercase hex must decode");
    assert_eq!(digest.to_hex(), "3b18e512dba79e4c8300dd08aeb37f8e728b8dad");
}

#[test]
fn from_hex_rejects_bad_input() {
    // too short, and of odd length
    assert!(Digest::from_hex(&b"3b18e5".to_vec()).is_none());
    assert!(Digest::from_hex(&b"3b18e512dba79e4c8300dd08aeb37f8e728b8da".to_vec()).is_none());
    // too long
    assert!(
        Digest::from_hex(&b"3b18e512dba79e4c8300dd08aeb37f8e728b8dad00".to_vec()).is_none()
    );
    // a non-hex character
    assert!(
        Digest::from_hex(&b"zb18e512dba79e4c8300dd08aeb37f8e728b8dad".to_vec()).is_none()
    );
    assert!(Digest::from_hex(&Vec::new()).is_none());
}
