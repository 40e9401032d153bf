use sha2::Digest;
use solog::line::get_line;
use solog::pow::{meets_difficulty, pow_digest, ProofOfWork, PREFIX_LEN};

#[test]
fn digest_is_sha256_of_prefix_and_decimal_nonce() {
    let d = pow_digest("ab", 7);
    assert_eq!(d, sha2::Sha256::digest(b"ab7").to_vec());
    let d = pow_digest("xY9", 1234567890123);
    assert_eq!(d, sha2::Sha256::digest(b"xY91234567890123").to_vec());
    assert_eq!(pow_digest("", u128::MAX), sha2::Sha256::digest(u128::MAX.to_string().as_bytes()).to_vec());
}

#[test]
fn digest_of_zero_is_known() {
    let d = pow_digest("", 0);
    assert_eq!(d.len(), 32);
    assert_eq!(&d[..4], &[0x5f, 0xec, 0xeb, 0x66]);
}

#[test]
fn difficulty_counts_hex_zeros() {
    let mut d = [0u8; 32];
    d[2] = 0x0f;
    assert!(meets_difficulty(&d));
    d[2] = 0x10;
    assert!(!meets_difficulty(&d));
    d[2] = 0;
    d[1] = 1;
    assert!(!meets_difficulty(&d));
    assert!(meets_difficulty(&[0, 0, 0]));
    assert!(!meets_difficulty(&[0, 0]));
    assert!(!meets_difficulty(&[]));
}

#[test]
fn verify_agrees_with_digest() {
    let pow = ProofOfWork::from("abcdefghij".to_string());
    assert_eq!(pow.prefix, "abcdefghij");
    for n in 0..50u128 {
        let d = sha2::Sha256::digest(format!("abcdefghij{}", n).as_bytes());
        let hex: String = d.iter().map(|b| format!("{:02x}", b)).collect();
        assert_eq!(pow.verify(n), hex.starts_with("00000"));
    }
}

#[test]
fn new_prefix_is_alphanumeric() {
    let pow = ProofOfWork::new();
    assert_eq!(pow.prefix.chars().count(), PREFIX_LEN);
    assert!(pow.prefix.chars().all(|c| c.is_ascii_alphanumeric()));
}

#[test]
fn line_value_is_second_field_trimmed() {
    assert_eq!(get_line("prefix: abc\n"), Some("abc".to_string()));
    assert_eq!(get_line("nonce:  12  "), Some("12".to_string()));
    assert_eq!(get_line("a:b:c"), Some("b".to_string()));
    assert_eq!(get_line("user:"), Some(String::new()));
    assert_eq!(get_line(":x"), Some("x".to_string()));
}

#[test]
fn line_without_colon_is_rejected() {
    assert_eq!(get_line("no separator here"), None);
    assert_eq!(get_line(""), None);
}
