//! BLAKE3 in its keyed and key-derivation modes.

use quietwire::crypto::hash::{derive_key, keyed_hash};
use quietwire::crypto::SecretKey;

#[test]
fn a_keyed_hash_depends_on_the_key_and_the_input() {
    let key = SecretKey::from_slice(&[1; 32]).unwrap();
    let other = SecretKey::from_slice(&[2; 32]).unwrap();

    let hash = keyed_hash(&key, b"input");

    assert_eq!(hash, keyed_hash(&key, b"input"));
    assert_ne!(hash, keyed_hash(&other, b"input"));
    assert_ne!(hash, keyed_hash(&key, b"other"));
    assert_ne!(&hash, &[1; 32]);
}

#[test]
fn derived_keys_are_separated_by_context() {
    let first = derive_key("quietwire tests: first context", b"material");
    let second = derive_key("quietwire tests: second context", b"material");

    assert!(first == derive_key("quietwire tests: first context", b"material"));
    assert!(first != second);
    assert_ne!(first.expose_secret(), b"materialmaterialmaterialmaterial");
}
