//! HKDF-SHA512 (RFC 5869) and HMAC-SHA512 (RFC 2104).

use hkdf::Hkdf;
use hkdf::InvalidLength as HkdfLengthError;
use hmac::digest::InvalidLength as HmacKeyLengthError;
use hmac::digest::KeyInit;
use hmac::{Hmac, Mac};
use sha2::Sha512;
use vstd::prelude::*;
use zeroize::Zeroizing;

use crate::crypto::secret::{secret_buffer_held, SecretBuffer};

verus! {

/// Length of an [`hmac_sha512`] output in bytes.
pub const HMAC_SHA512_LEN: usize = 64;
/// Longest output HKDF-SHA512 gives: 255 SHA-512 blocks.
pub const HKDF_SHA512_MAX_LEN: usize = 16320;

#[verifier::external_type_specification]
#[verifier::external_body]
pub struct ExHkdfLengthError(HkdfLengthError);

#[verifier::external_type_specification]
#[verifier::external_body]
pub struct ExHmacKeyLengthError(HmacKeyLengthError);

/// The first `len` bytes HKDF-SHA512 expands to from `ikm`, `salt` and `info`.
pub uninterp spec fn hkdf_sha512_okm(ikm: Seq<u8>, salt: Seq<u8>, info: Seq<u8>, len: nat) -> Seq<u8>;

/// The HMAC-SHA512 tag of `message` under `key`.
pub uninterp spec fn hmac_sha512_tag(key: Seq<u8>, message: Seq<u8>) -> Seq<u8>;

/// `Hkdf::<Sha512>::new(Some(salt), ikm)` then `expand(info, ..)` into a
/// wiping buffer of `len` bytes. Claims that it fails exactly when `len` is
/// above 255 blocks, and that otherwise the buffer holds the named output.
#[verifier::external_body]
fn hkdf_sha512_expand(ikm: &[u8], salt: &[u8], info: &[u8], len: usize) -> (result: Result<
    SecretBuffer,
    HkdfLengthError,
>)
    ensures
        result is Ok <==> len <= HKDF_SHA512_MAX_LEN,
        result matches Ok(okm) ==> secret_buffer_held(okm) == hkdf_sha512_okm(ikm@, salt@, info@, len as nat) && secret_buffer_held(okm).len() == len,
{
    let mut okm = Zeroizing::new(vec![0u8; len]);
    Hkdf::<Sha512>::new(Some(salt), ikm).expand(info, &mut okm)?;
    Ok(SecretBuffer { inner: okm })
}

/// `Hmac::<Sha512>::new_from_slice(key)`, `update(message)` and
/// `finalize_into` a wiping buffer. HMAC takes keys of any length, so the
/// source never fails here; claims that, and that the buffer holds the
/// 64-byte named tag.
#[verifier::external_body]
fn hmac_sha512_mac(key: &[u8], message: &[u8]) -> (result: Result<SecretBuffer, HmacKeyLengthError>)
    ensures
        result is Ok,
        result matches Ok(tag) ==> secret_buffer_held(tag) == hmac_sha512_tag(key@, message@) && secret_buffer_held(tag).len() == HMAC_SHA512_LEN,
{
    let mut mac = <Hmac<Sha512> as KeyInit>::new_from_slice(key)?;
    mac.update(message);
    let mut tag = Zeroizing::new(vec![0u8; HMAC_SHA512_LEN]);
    tag.copy_from_slice(&mac.finalize().into_bytes());
    Ok(SecretBuffer { inner: tag })
}

/// Extracts from `ikm` with `salt`, then expands `len` bytes bound to `info`.
///
/// An empty `salt` is the RFC's "not provided" case.
///
/// # Errors
/// [`crate::crypto::Error::InvalidLength`] if `len` exceeds 255 SHA-512
/// blocks (16 320 bytes).
pub fn hkdf_sha512(ikm: &[u8], salt: &[u8], info: &[u8], len: usize) -> (result: Result<
    SecretBuffer,
    crate::crypto::Error,
>)
    ensures
        result is Ok <==> len <= HKDF_SHA512_MAX_LEN,
        result is Err ==> result == Err::<SecretBuffer, crate::crypto::Error>(
            crate::crypto::Error::InvalidLength,
        ),
        result matches Ok(okm) ==> secret_buffer_held(okm) == hkdf_sha512_okm(
            ikm@,
            salt@,
            info@,
            len as nat,
        ) && secret_buffer_held(okm).len() == len,
{
    match hkdf_sha512_expand(ikm, salt, info, len) {
        Ok(okm) => Ok(okm),
        Err(_) => Err(crate::crypto::Error::InvalidLength),
    }
}

/// HMAC-SHA512 of `message` under `key`.
pub fn hmac_sha512(key: &[u8], message: &[u8]) -> (tag: SecretBuffer)
    ensures
        secret_buffer_held(tag) == hmac_sha512_tag(key@, message@),
        secret_buffer_held(tag).len() == HMAC_SHA512_LEN,
{
    match hmac_sha512_mac(key, message) {
        Ok(tag) => tag,
        Err(_) => {
            proof {
                assert(false);
            }
            SecretBuffer::wrap(Vec::new())
        },
    }
}

} // verus!
