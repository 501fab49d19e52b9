use migration_sim::digest::fingerprint_of;
use migration_sim::text::decimal_text;

#[test]
fn fingerprint_is_the_sha256_digest_in_hex() {
    assert_eq!(fingerprint_of(""), "e3b0c44298fc1c149afbf4c8996fb92427ae41e4649b934ca495991b7852b855");
    assert_eq!(fingerprint_of("abc"), "ba7816bf8f01cfea414140de5dae2223b00361a396177a9cb410ff61f20015ad");
}

#[test]
fn fingerprints_differ_with_content() {
    let a = fingerprint_of("{\"contract_id\":\"C1\",\"entries\":[]}");
    let b = fingerprint_of("{\"contract_id\":\"C2\",\"entries\":[]}");
    assert_ne!(a, b);
    assert_eq!(a.len(), 64);
    assert!(a.chars().all(|c| c.is_ascii_hexdigit() && !c.is_ascii_uppercase()));
}

#[test]
fn decimal_rendering() {
    assert_eq!(decimal_text(0), "0");
    assert_eq!(decimal_text(7), "7");
    assert_eq!(decimal_text(10), "10");
    assert_eq!(decimal_text(4294967295), "4294967295");
}
