//! X25519 against RFC 7748: the iterated function and the Diffie-Hellman
//! example of section 6.1, written in here.

use quietwire::crypto::x25519::{PrivateKey, PublicKey};
use quietwire::crypto::{Error, SecretKey};
use quietwire::fixtures::{hex, hex_array};

const ITERATION_START: &str = "0900000000000000000000000000000000000000000000000000000000000000";
const AFTER_ONE: &str = "422c8e7a6227d7bca1350b3e2bb7279f7897b87bb6854b783c60e80311ae3079";
const AFTER_THOUSAND: &str = "684cf59ba83309552800ef566f2f4d3c1c3887c49360e3875f2eb94d99532c51";

fn private_key(encoded: &str) -> PrivateKey {
    PrivateKey::from(SecretKey::from_slice(&hex(encoded)).expect("32-byte scalar"))
}

fn public_key(encoded: &str) -> PublicKey {
    PublicKey::from_bytes(hex_array(encoded))
}

fn x25519(scalar: &[u8; 32], u: &[u8; 32]) -> Result<[u8; 32], Error> {
    let private = PrivateKey::from(SecretKey::from_slice(scalar).unwrap());
    private
        .diffie_hellman(&PublicKey::from_bytes(*u))
        .map(|shared| *shared.expose_secret())
}

fn iterate(start: &str, iterations: u32) -> [u8; 32] {
    let mut k: [u8; 32] = hex_array(start);
    let mut u = k;
    for _ in 0..iterations {
        let output = x25519(&k, &u).unwrap();
        u = k;
        k = output;
    }
    k
}

#[test]
fn qw_u_cry_001_one_iteration_matches_rfc_7748() {
    assert_eq!(iterate(ITERATION_START, 1).to_vec(), hex(AFTER_ONE));
}

#[test]
fn qw_u_cry_001_a_thousand_iterations_match_rfc_7748() {
    assert_eq!(iterate(ITERATION_START, 1000).to_vec(), hex(AFTER_THOUSAND));
}

#[test]
fn qw_u_cry_002_public_keys_and_shared_secret_match_rfc_7748_section_6_1() {
    let alice = private_key("77076d0a7318a57d3c16c17251b26645df4c2f87ebc0992ab177fba51db92c2a");
    let bob = private_key("5dab087e624a8a4b79e17f8b83800ee66f3bb1292618b6fd1c2f8b27ff88e0eb");

    assert_eq!(
        alice.public_key(),
        public_key("8520f0098930a754748b7ddcb43ef75a0dbf3a0d26381af4eba4a98eaa9b4e6a")
    );
    assert_eq!(
        bob.public_key(),
        public_key("de9edb7d7b7dc1b4d35b61c2ece435373f8343c85b78674dadfc7e146f882b4f")
    );
    for shared in [
        alice.diffie_hellman(&bob.public_key()).unwrap(),
        bob.diffie_hellman(&alice.public_key()).unwrap(),
    ] {
        assert_eq!(
            shared.expose_secret().to_vec(),
            hex("4a5d9d5ba4ce2de1728e3bf480350f25e07e21c947d19e3376f09b3c1e161742")
        );
    }
}

#[test]
fn generated_keys_agree_on_a_shared_secret() {
    let alice = PrivateKey::generate().unwrap();
    let bob = PrivateKey::generate().unwrap();

    let alice_shared = alice.diffie_hellman(&bob.public_key()).unwrap();
    let bob_shared = bob.diffie_hellman(&alice.public_key()).unwrap();

    assert!(alice_shared == bob_shared);
}

#[test]
fn public_key_round_trips_through_its_bytes() {
    let public = PrivateKey::generate().unwrap().public_key();

    assert_eq!(PublicKey::from_bytes(*public.as_bytes()), public);
}

#[test]
fn the_all_zero_point_is_refused_whatever_the_private_key() {
    let low_order = PublicKey::from_bytes([0; 32]);

    for _ in 0..4 {
        let refused = PrivateKey::generate().unwrap().diffie_hellman(&low_order);
        assert!(matches!(refused, Err(Error::InvalidPublicKey)));
    }
}
