//! ML-KEM-768 beyond the ACVP files: agreement, key round trips and implicit
//! rejection.

use quietwire::crypto::mlkem::{Ciphertext, DecapsulationKey, EncapsulationKey, CIPHERTEXT_LEN};

#[test]
fn qw_u_cry_009_both_sides_agree_on_the_shared_key() {
    let key = DecapsulationKey::generate().unwrap();

    let (ciphertext, sent) = key.encapsulation_key().encapsulate().unwrap();
    let received = key.decapsulate(&ciphertext);

    assert!(sent == received);
}

#[test]
fn qw_u_cry_009_encapsulation_key_round_trips_through_its_bytes() {
    let key = DecapsulationKey::generate().unwrap().encapsulation_key();

    let parsed = EncapsulationKey::from_bytes(&key.to_bytes()).unwrap();

    assert_eq!(parsed.to_bytes(), key.to_bytes());
}

#[test]
fn qw_u_cry_010_a_malformed_ciphertext_yields_the_implicit_rejection_key() {
    let key = DecapsulationKey::generate().unwrap();
    let (ciphertext, sent) = key.encapsulation_key().encapsulate().unwrap();
    let mut malformed = *ciphertext.as_bytes();
    malformed[0] ^= 1;
    let malformed = Ciphertext::from_bytes(malformed);

    let rejected = key.decapsulate(&malformed);

    assert!(rejected != sent);
    assert!(rejected == key.decapsulate(&malformed));
}

#[test]
fn qw_u_cry_010_the_rejection_key_depends_on_the_decapsulation_key() {
    let zero = Ciphertext::from_bytes([0; CIPHERTEXT_LEN]);

    let alice = DecapsulationKey::generate().unwrap().decapsulate(&zero);
    let bob = DecapsulationKey::generate().unwrap().decapsulate(&zero);

    assert!(alice != bob);
}

#[test]
fn a_key_whose_coefficients_are_out_of_range_is_refused() {
    let mut bytes = DecapsulationKey::generate()
        .unwrap()
        .encapsulation_key()
        .to_bytes();
    bytes[0] = 0xff;
    bytes[1] = 0xff;

    assert!(EncapsulationKey::from_bytes(&bytes).is_err());
}
