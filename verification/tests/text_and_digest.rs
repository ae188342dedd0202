use seaf_loop::digest::digest_hex;
use seaf_loop::number::canonical_number;

#[test]
fn digests_are_lowercase_hex_sha256() {
    assert_eq!(
        digest_hex(b""),
        "e3b0c44298fc1c149afbf4c8996fb92427ae41e4649b934ca495991b7852b855"
    );
    assert_eq!(
        digest_hex(b"abc"),
        "ba7816bf8f01cfea414140de5dae2223b00361a396177a9cb410ff61f20015ad"
    );
}

#[test]
fn canonical_numbers_have_minimum_width_three() {
    let n = |s: &str| canonical_number(&s.chars().collect());
    assert_eq!(n("001"), Some(1));
    assert_eq!(n("042"), Some(42));
    assert_eq!(n("1000"), Some(1000));
    assert_eq!(n("4294967295"), Some(u32::MAX));
    assert_eq!(n("4294967296"), None);
    assert_eq!(n("000"), None);
    assert_eq!(n("01"), None);
    assert_eq!(n("0042"), None);
    assert_eq!(n("12a"), None);
}
