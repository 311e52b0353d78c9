use safe_blob::blob::Blob;
use safe_blob::digest::{content_hash, hash_eq, HASH_LEN};

fn hex(bytes: &[u8]) -> String {
    bytes.iter().map(|b| format!("{:02x}", b)).collect()
}

#[test]
fn hash_of_nothing_is_the_sha3_256_of_nothing() {
    assert_eq!(HASH_LEN, 32);
    assert_eq!(
        hex(&content_hash(&[])),
        "a7ffc6f8bf1ed76651c14756a061d662f580ff4de43b49fa82d80a4b80f8434a"
    );
}

#[test]
fn hash_of_abc_is_the_sha3_256_of_abc() {
    assert_eq!(
        hex(&content_hash(b"abc")),
        "3a985da74fe225b2045c172d6bd390bd855f086e3e9d525b46bfe24511431532"
    );
}

#[test]
fn public_address_is_the_hash_of_the_payload() {
    let blob = Blob::new_public(b"immutable data value".to_vec());
    assert_eq!(
        hex(&blob.name()),
        "fac2869677ee06277633c37ac7e8e5c655f3d652f707c7a79fab930d584a3016"
    );
    assert_eq!(blob.address().hash, content_hash(b"immutable data value"));
}

#[test]
fn private_address_is_the_hash_of_payload_then_owner() {
    let blob = Blob::new_private(b"immutable ".to_vec(), b"data value".to_vec());
    assert_eq!(
        hex(&blob.name()),
        "fac2869677ee06277633c37ac7e8e5c655f3d652f707c7a79fab930d584a3016"
    );
    assert!(blob.address().is_private());
    let other_owner = Blob::new_private(b"immutable ".to_vec(), b"data valuf".to_vec());
    assert_ne!(other_owner.name(), blob.name());
}

#[test]
fn hash_equality() {
    let a = content_hash(b"a");
    let b = content_hash(b"b");
    assert!(hash_eq(&a, &a));
    assert!(!hash_eq(&a, &b));
    let mut almost = a;
    almost[31] ^= 1;
    assert!(!hash_eq(&a, &almost));
}
