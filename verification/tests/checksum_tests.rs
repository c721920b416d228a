use devignite::checksum::{hex_encode, hex_str_eq, parse_sha256_from_text, sha256_hex, ChecksumTextError};

const ABC_SHA256: &str = "ba7816bf8f01cfea414140de5dae2223b00361a396177a9cb410ff61f20015ad";

#[test]
fn sha256_of_known_inputs() {
    assert_eq!(sha256_hex(b"abc"), ABC_SHA256);
    assert_eq!(
        sha256_hex(b""),
        "e3b0c44298fc1c149afbf4c8996fb92427ae41e4649b934ca495991b7852b855"
    );
}

#[test]
fn hex_encoding_is_lower_case_two_digits_per_byte() {
    assert_eq!(hex_encode(&[0x00, 0x0f, 0xa0, 0xff]), "000fa0ff");
    assert_eq!(hex_encode(&[]), "");
}

#[test]
fn checksum_comparison_ignores_case_spaces_and_newlines() {
    assert!(hex_str_eq("AB CD\nEF", "abcdef"));
    assert!(hex_str_eq(&ABC_SHA256.to_uppercase(), ABC_SHA256));
    assert!(!hex_str_eq("abcdef", "abcdee"));
    assert!(!hex_str_eq("abc\tdef", "abcdef"));
    assert!(hex_str_eq("", " \n "));
}

#[test]
fn checksum_comparison_is_symmetric_and_reflexive() {
    assert!(hex_str_eq("Ab", "Ab"));
    assert_eq!(hex_str_eq("AB", "ab"), hex_str_eq("ab", "AB"));
}

#[test]
fn parse_takes_first_valid_hash() {
    let text = format!("\n   \nnot-a-hash file\n{}  node.tar.gz\n{}", ABC_SHA256, "f".repeat(64));
    match parse_sha256_from_text(&text) {
        Ok(h) => assert_eq!(h, ABC_SHA256),
        Err(_) => panic!("expected a hash"),
    }
}

#[test]
fn parse_accepts_upper_case_and_leading_spaces() {
    let upper = ABC_SHA256.to_uppercase();
    match parse_sha256_from_text(&format!("   {}\r\n", upper)) {
        Ok(h) => assert_eq!(h, upper),
        Err(_) => panic!("expected a hash"),
    }
}

#[test]
fn parse_rejects_wrong_lengths_and_digits() {
    let short = "a".repeat(63);
    let bad = format!("{}g", "a".repeat(63));
    let long = "a".repeat(65);
    for t in [short.as_str(), bad.as_str(), long.as_str(), "", "   \n  "] {
        assert!(matches!(parse_sha256_from_text(t), Err(ChecksumTextError::NoValidHash)));
    }
}
