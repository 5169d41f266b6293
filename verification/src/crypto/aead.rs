//! XChaCha20-Poly1305 authenticated encryption.

use chacha20poly1305::aead::{Aead, Payload};
use chacha20poly1305::Error as AeadError;
use chacha20poly1305::{KeyInit, XChaCha20Poly1305};
use vstd::prelude::*;

use crate::crypto::rng::random_array;
use crate::crypto::secret::{secret_buffer_held, SecretBuffer};
use crate::crypto::SecretKey;

verus! {

/// Length of a [`Nonce`] in bytes.
pub const NONCE_LEN: usize = 24;
/// Length of the Poly1305 tag appended to every sealed message.
pub const TAG_LEN: usize = 16;

#[verifier::external_type_specification]
#[verifier::external_body]
pub struct ExAeadError(AeadError);

/// What XChaCha20-Poly1305 makes of `plaintext` under `key`, `nonce` and
/// `aad`: the ciphertext followed by the tag.
pub uninterp spec fn xchacha20_poly1305_seal(
    key: Seq<u8>,
    nonce: Seq<u8>,
    aad: Seq<u8>,
    plaintext: Seq<u8>,
) -> Seq<u8>;

/// Whether a message of `len` bytes fits under the cipher's 32-bit block
/// counter, which is all that `chacha20poly1305` refuses to seal or open.
pub open spec fn within_cipher_limit(len: nat) -> bool {
    len / 64 < 0xffff_ffff
}

/// `XChaCha20Poly1305::encrypt`: seals `plaintext` with `aad`. Claims that it
/// fails exactly past the block-counter limit, and that otherwise the result
/// is the named sealing, 16 bytes longer than the plaintext.
#[verifier::external_body]
fn xchacha20_poly1305_encrypt(
    key: &[u8; 32],
    nonce: &[u8; NONCE_LEN],
    aad: &[u8],
    plaintext: &[u8],
) -> (result: Result<Vec<u8>, AeadError>)
    ensures
        result is Ok <==> within_cipher_limit(plaintext@.len()),
        result matches Ok(sealed) ==> sealed@ == xchacha20_poly1305_seal(key@, nonce@, aad@, plaintext@) && sealed@.len() == plaintext@.len() + TAG_LEN,
{
    XChaCha20Poly1305::new(key.into()).encrypt(nonce.into(), Payload { msg: plaintext, aad })
}

/// `XChaCha20Poly1305::decrypt`: authenticates `sealed` with `aad`, then
/// decrypts it into a wiping buffer. Claims the two facts of a deterministic
/// AEAD: what opens is exactly what seals back to `sealed`, and whatever was
/// sealed under the same key, nonce and `aad` opens to its plaintext; and
/// that what opens is `sealed` without its 16-byte tag.
#[verifier::external_body]
fn xchacha20_poly1305_decrypt(
    key: &[u8; 32],
    nonce: &[u8; NONCE_LEN],
    aad: &[u8],
    sealed: &[u8],
) -> (result: Result<SecretBuffer, AeadError>)
    ensures
        result matches Ok(opened) ==> xchacha20_poly1305_seal(key@, nonce@, aad@, secret_buffer_held(opened)) == sealed@,
        result matches Ok(opened) ==> secret_buffer_held(opened).len() + TAG_LEN == sealed@.len(),
        result is Ok <== exists|plaintext: Seq<u8>| #[trigger] xchacha20_poly1305_seal(key@, nonce@, aad@, plaintext) == sealed@ && within_cipher_limit(plaintext.len()),
        result matches Ok(opened) ==> forall|plaintext: Seq<u8>| #[trigger] xchacha20_poly1305_seal(key@, nonce@, aad@, plaintext) == sealed@ ==> secret_buffer_held(opened) == plaintext,
{
    XChaCha20Poly1305::new(key.into()).decrypt(nonce.into(), Payload { msg: sealed, aad }).map(
        SecretBuffer::wrap,
    )
}

/// A 192-bit nonce, long enough to be drawn at random for every message.
#[derive(Debug, Clone, Copy, PartialEq, Eq)]
pub struct Nonce([u8; NONCE_LEN]);

impl View for Nonce {
    type V = Seq<u8>;

    closed spec fn view(&self) -> Seq<u8> {
        self.0@
    }
}

impl Nonce {
    /// Draws a fresh nonce from the operating system RNG.
    ///
    /// # Errors
    /// [`crate::crypto::Error::Rng`] if the RNG fails.
    pub fn random() -> (result: Result<Self, crate::crypto::Error>)
        ensures
            result is Err ==> result == Err::<Self, crate::crypto::Error>(
                crate::crypto::Error::Rng,
            ),
            result matches Ok(nonce) ==> nonce@.len() == NONCE_LEN,
    {
        match random_array() {
            Ok(bytes) => Ok(Nonce(bytes)),
            Err(_) => Err(crate::crypto::Error::Rng),
        }
    }

    /// A nonce read back from storage or the wire.
    pub fn from_bytes(bytes: [u8; NONCE_LEN]) -> (nonce: Self)
        ensures
            nonce@ == bytes@,
    {
        Nonce(bytes)
    }

    /// The nonce bytes, for storage or the wire.
    pub fn as_bytes(&self) -> (bytes: &[u8; NONCE_LEN])
        ensures
            bytes@ == self@,
    {
        &self.0
    }
}

/// Encrypts `plaintext` and authenticates it together with `aad`.
///
/// Returns the ciphertext followed by the tag.
///
/// # Errors
/// [`crate::crypto::Error::InvalidLength`] if `plaintext` is beyond the
/// cipher's limit.
pub fn seal(key: &SecretKey, nonce: &Nonce, aad: &[u8], plaintext: &[u8]) -> (result: Result<
    Vec<u8>,
    crate::crypto::Error,
>)
    ensures
        result is Ok <==> within_cipher_limit(plaintext@.len()),
        result is Err ==> result == Err::<Vec<u8>, crate::crypto::Error>(
            crate::crypto::Error::InvalidLength,
        ),
        result matches Ok(sealed) ==> sealed@ == xchacha20_poly1305_seal(key@, nonce@, aad@, plaintext@) && sealed@.len() == plaintext@.len() + TAG_LEN,
{
    match xchacha20_poly1305_encrypt(key.expose_secret(), &nonce.0, aad, plaintext) {
        Ok(sealed) => Ok(sealed),
        Err(_) => Err(crate::crypto::Error::InvalidLength),
    }
}

/// Authenticates `sealed` (ciphertext followed by tag) with `aad`, then
/// decrypts it.
///
/// # Errors
/// [`crate::crypto::Error::Authentication`] if anything differs from what was
/// sealed.
pub fn open(key: &SecretKey, nonce: &Nonce, aad: &[u8], sealed: &[u8]) -> (result: Result<
    SecretBuffer,
    crate::crypto::Error,
>)
    ensures
        result is Err ==> result == Err::<SecretBuffer, crate::crypto::Error>(
            crate::crypto::Error::Authentication,
        ),
        result matches Ok(opened) ==> xchacha20_poly1305_seal(key@, nonce@, aad@, secret_buffer_held(opened)) == sealed@,
        result matches Ok(opened) ==> secret_buffer_held(opened).len() + TAG_LEN == sealed@.len(),
        forall|plaintext: Seq<u8>| #[trigger] xchacha20_poly1305_seal(key@, nonce@, aad@, plaintext) == sealed@ && within_cipher_limit(plaintext.len()) ==> (result matches Ok(opened) && secret_buffer_held(opened) == plaintext),
{
    match xchacha20_poly1305_decrypt(key.expose_secret(), &nonce.0, aad, sealed) {
        Ok(opened) => Ok(opened),
        Err(_) => Err(crate::crypto::Error::Authentication),
    }
}

} // verus!
