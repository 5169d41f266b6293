//! HKDF-SHA512 and HMAC-SHA512 beyond the Wycheproof files.

use quietwire::crypto::kdf::{hkdf_sha512, hmac_sha512, HKDF_SHA512_MAX_LEN};
use quietwire::crypto::Error;
use quietwire::fixtures::hex;

const MAXIMUM_OUTPUT_LEN: usize = 255 * 64;

#[test]
fn qw_u_cry_006_hkdf_sha512_output_limit_is_255_blocks() {
    assert!(hkdf_sha512(b"ikm", b"", b"", MAXIMUM_OUTPUT_LEN).is_ok());
    assert!(matches!(
        hkdf_sha512(b"ikm", b"", b"", MAXIMUM_OUTPUT_LEN + 1),
        Err(Error::InvalidLength)
    ));
    assert_eq!(HKDF_SHA512_MAX_LEN, MAXIMUM_OUTPUT_LEN);
}

#[test]
fn hkdf_gives_exactly_the_length_asked_for_and_depends_on_every_input() {
    let okm = hkdf_sha512(b"ikm", b"salt", b"info", 100).unwrap();
    let other_info = hkdf_sha512(b"ikm", b"salt", b"other", 100).unwrap();
    let other_salt = hkdf_sha512(b"ikm", b"pepper", b"info", 100).unwrap();
    let shorter = hkdf_sha512(b"ikm", b"salt", b"info", 40).unwrap();

    assert_eq!(okm.len(), 100);
    assert_ne!(okm.as_slice(), other_info.as_slice());
    assert_ne!(okm.as_slice(), other_salt.as_slice());
    assert_eq!(shorter.as_slice(), &okm.as_slice()[..40]);
}

#[test]
fn hmac_sha512_matches_rfc_4231_test_case_1() {
    let tag = hmac_sha512(&[0x0b; 20], b"Hi There");

    assert_eq!(
        tag.as_slice(),
        &hex("87aa7cdea5ef619d4ff0b4241a1d6cb02379f4e2ce4ec2787ad0b30545e17cdedaa833b7d6b8a702038b274eaea3f4e4be9d914eeb61f1702e696c203a126854")[..]
    );
}
