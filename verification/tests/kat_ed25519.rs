//! Ed25519: signatures over tampered messages, point decoding, byte round
//! trips, and the first test vector of RFC 8032 section 7.1.

use quietwire::crypto::ed25519::{Signature, SigningKey, VerifyingKey};
use quietwire::crypto::{Error, SecretKey};
use quietwire::fixtures::{hex, hex_array};

#[test]
fn a_tampered_message_fails_verification() {
    let key = SigningKey::generate().unwrap();
    let signature = key.sign(b"attack at dawn");

    let result = key.verifying_key().verify(b"attack at dusk", &signature);

    assert_eq!(result, Err(Error::InvalidSignature));
}

#[test]
fn some_encodings_are_not_curve_points_and_are_rejected() {
    let rejected = (0..=u8::MAX).filter(|&y| {
        let mut encoding = [0; 32];
        encoding[0] = y;
        VerifyingKey::from_bytes(&encoding) == Err(Error::InvalidPublicKey)
    });

    assert!(rejected.count() > 0);
}

#[test]
fn verifying_key_and_signature_round_trip_through_their_bytes() {
    let key = SigningKey::generate().unwrap();
    let signature = key.sign(b"round trip");

    let verifying_key = VerifyingKey::from_bytes(&key.verifying_key().to_bytes()).unwrap();
    let signature = Signature::from_bytes(*signature.as_bytes());

    assert!(verifying_key.verify(b"round trip", &signature).is_ok());
}

#[test]
fn the_first_rfc_8032_vector_signs_and_verifies_the_empty_message() {
    let seed = hex("9d61b19deffd5a60ba844af492ec2cc44449c5697b326919703bac031cae7f60");
    let key = SigningKey::from(SecretKey::from_slice(&seed).unwrap());

    let public: [u8; 32] =
        hex_array("d75a980182b10ab7d54bfed3c964073a0ee172f3daa62325af021a68f707511a");
    let expected: [u8; 64] = hex_array(
        "e5564300c360ac729086e2cc806e828a84877f1eb8e5d974d873e065224901555fb8821590a33bacc61e39701cf9b46bd25bf5f0595bbe24655141438e7a100b",
    );

    assert_eq!(key.verifying_key().to_bytes(), public);
    assert_eq!(key.sign(b"").as_bytes(), &expected);
    assert!(key
        .verifying_key()
        .verify(b"", &Signature::from_bytes(expected))
        .is_ok());
}
