use gptcli::digest::{sha256_hex, sha256_str, to_hex};

#[test]
fn sha256_of_nothing() {
    assert_eq!(
        sha256_hex(&[]),
        "e3b0c44298fc1c149afbf4c8996fb92427ae41e4649b934ca495991b7852b855"
    );
}

#[test]
fn sha256_of_abc() {
    assert_eq!(
        sha256_str("abc"),
        "ba7816bf8f01cfea414140de5dae2223b00361a396177a9cb410ff61f20015ad"
    );
    assert_eq!(sha256_hex(b"abc"), sha256_str("abc"));
}

#[test]
fn digest_tells_texts_apart() {
    assert_ne!(sha256_str("abc"), sha256_str("abd"));
    assert_eq!(sha256_str("abc").len(), 64);
}

#[test]
fn hex_is_lower_case_two_digits_a_byte() {
    assert_eq!(to_hex(&[0x00, 0x0a, 0x14, 0x1e, 0xff, 0xa5]), "000a141effa5");
    assert_eq!(to_hex(&[]), "");
}
