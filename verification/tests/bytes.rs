use kvdb_file::bytes::starts_with;

#[test]
fn every_key_starts_with_the_empty_prefix() {
    assert!(starts_with(b"", b""));
    assert!(starts_with(b"abc", b""));
}

#[test]
fn prefix_must_match_byte_for_byte() {
    assert!(starts_with(b"abc", b"a"));
    assert!(starts_with(b"abc", b"ab"));
    assert!(starts_with(b"abc", b"abc"));
    assert!(!starts_with(b"abc", b"b"));
    assert!(!starts_with(b"abc", b"abd"));
    assert!(!starts_with(b"abc", b"bc"));
    assert!(starts_with(&[1, 255, 255], &[1, 255]));
    assert!(!starts_with(&[1, 255], &[1, 254]));
}

#[test]
fn prefix_longer_than_the_key_does_not_match() {
    assert!(!starts_with(b"ab", b"abc"));
    assert!(!starts_with(b"", b"a"));
}
