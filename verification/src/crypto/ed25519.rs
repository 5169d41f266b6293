//! Ed25519 signatures (RFC 8032), verified strictly: non-canonical and
//! small-order keys and signatures are refused.

use ed25519_dalek::Signer;
use ed25519_dalek::SignatureError as DalekSignatureError;
use vstd::prelude::*;

use crate::crypto::stack::scrubbed;
use crate::crypto::SecretKey;

verus! {

/// Length of a [`VerifyingKey`] in bytes.
pub const VERIFYING_KEY_LEN: usize = 32;
/// Length of a [`Signature`] in bytes.
pub const SIGNATURE_LEN: usize = 64;

#[verifier::external_type_specification]
#[verifier::external_body]
pub struct ExDalekSignatureError(DalekSignatureError);

/// The public key RFC 8032 derives from a 32-byte seed.
pub uninterp spec fn ed25519_public_of_seed(seed: Seq<u8>) -> Seq<u8>;

/// The deterministic RFC 8032 signature of `message` under the key of `seed`.
pub uninterp spec fn ed25519_signature_of(seed: Seq<u8>, message: Seq<u8>) -> Seq<u8>;

/// Whether 32 bytes decode to a point on the curve.
pub uninterp spec fn ed25519_point_decodes(key: Seq<u8>) -> bool;

/// Whether `signature` over `message` passes strict verification under `key`.
pub uninterp spec fn ed25519_verifies_strictly(key: Seq<u8>, message: Seq<u8>, signature: Seq<u8>) -> bool;

/// `SigningKey::from_bytes(seed).verifying_key().to_bytes()`: claims the 32
/// bytes are the named public key of `seed`.
#[verifier::external_body]
fn ed25519_public(seed: &[u8; 32]) -> (public: [u8; VERIFYING_KEY_LEN])
    ensures
        public@ == ed25519_public_of_seed(seed@),
{
    ed25519_dalek::SigningKey::from_bytes(seed).verifying_key().to_bytes()
}

/// `SigningKey::from_bytes(seed).sign(message).to_bytes()`: claims the 64
/// bytes are the named signature of `message` under `seed`. That strict
/// verification accepts it is left unsaid: `verify_strict` refuses a
/// signature whose `R` is of small order, and the nonce `r = H(prefix || M)`
/// reduced mod the group order may, for some seed and message, be zero.
#[verifier::external_body]
fn ed25519_sign(seed: &[u8; 32], message: &[u8]) -> (signature: [u8; SIGNATURE_LEN])
    ensures
        signature@ == ed25519_signature_of(seed@, message@),
{
    ed25519_dalek::SigningKey::from_bytes(seed).sign(message).to_bytes()
}

/// `ed25519_dalek::VerifyingKey::from_bytes`, keeping only whether it
/// succeeded: claims the result is the named decoding check.
#[verifier::external_body]
fn ed25519_decode(key: &[u8; VERIFYING_KEY_LEN]) -> (result: Result<(), DalekSignatureError>)
    ensures
        result is Ok == ed25519_point_decodes(key@),
{
    ed25519_dalek::VerifyingKey::from_bytes(key).map(|_| ())
}

/// `VerifyingKey::verify_strict` on the decoded key: claims the call succeeds
/// exactly when the named strict check holds (a key that does not decode
/// fails it too).
#[verifier::external_body]
fn ed25519_verify_strict(
    key: &[u8; VERIFYING_KEY_LEN],
    message: &[u8],
    signature: &[u8; SIGNATURE_LEN],
) -> (result: Result<(), DalekSignatureError>)
    ensures
        result is Ok == ed25519_verifies_strictly(key@, message@, signature@),
{
    ed25519_dalek::VerifyingKey::from_bytes(key)?.verify_strict(
        message,
        &ed25519_dalek::Signature::from_bytes(signature),
    )
}

/// An Ed25519 seed, wiped on drop.
pub struct SigningKey(SecretKey);

impl View for SigningKey {
    type V = Seq<u8>;

    closed spec fn view(&self) -> Seq<u8> {
        self.0@
    }
}

impl SigningKey {
    /// Draws a fresh seed from the operating system RNG.
    ///
    /// # Errors
    /// [`crate::crypto::Error::Rng`] if the RNG fails.
    pub fn generate() -> (result: Result<Self, crate::crypto::Error>)
        ensures
            result is Err ==> result == Err::<Self, crate::crypto::Error>(
                crate::crypto::Error::Rng,
            ),
            result matches Ok(key) ==> key@.len() == 32,
    {
        match SecretKey::random() {
            Ok(seed) => Ok(SigningKey(seed)),
            Err(error) => Err(error),
        }
    }

    /// The public key matching this seed.
    pub fn verifying_key(&self) -> (public: VerifyingKey)
        ensures
            public@ == ed25519_public_of_seed(self@),
    {
        let seed = self.0.expose_secret();
        let operation = || -> (public: VerifyingKey)
            ensures
                public@ == ed25519_public_of_seed(seed@)
            {
                VerifyingKey(ed25519_public(seed))
            };
        scrubbed(operation)
    }

    /// Signs `message` deterministically.
    pub fn sign(&self, message: &[u8]) -> (signature: Signature)
        ensures
            signature@ == ed25519_signature_of(self@, message@),
    {
        let seed = self.0.expose_secret();
        let operation = || -> (signature: Signature)
            ensures
                signature@ == ed25519_signature_of(seed@, message@)
            {
                Signature(ed25519_sign(seed, message))
            };
        scrubbed(operation)
    }
}

impl From<SecretKey> for SigningKey {
    fn from(seed: SecretKey) -> (key: Self)
        ensures
            key@ == seed@,
    {
        SigningKey(seed)
    }
}

impl vstd::std_specs::convert::FromSpecImpl<SecretKey> for SigningKey {
    open spec fn obeys_from_spec() -> bool {
        true
    }

    closed spec fn from_spec(seed: SecretKey) -> SigningKey {
        SigningKey(seed)
    }
}

/// An Ed25519 public key.
#[derive(Debug, Clone, Copy, PartialEq, Eq)]
pub struct VerifyingKey([u8; VERIFYING_KEY_LEN]);

impl View for VerifyingKey {
    type V = Seq<u8>;

    closed spec fn view(&self) -> Seq<u8> {
        self.0@
    }
}

impl VerifyingKey {
    /// Parses a public key received from a peer.
    ///
    /// # Errors
    /// [`crate::crypto::Error::InvalidPublicKey`] if `bytes` do not encode a
    /// curve point.
    pub fn from_bytes(bytes: &[u8; VERIFYING_KEY_LEN]) -> (result: Result<
        Self,
        crate::crypto::Error,
    >)
        ensures
            result is Ok <==> ed25519_point_decodes(bytes@),
            result is Err ==> result == Err::<Self, crate::crypto::Error>(
                crate::crypto::Error::InvalidPublicKey,
            ),
            result matches Ok(key) ==> key@ == bytes@,
    {
        match ed25519_decode(bytes) {
            Ok(()) => Ok(VerifyingKey(*bytes)),
            Err(_) => Err(crate::crypto::Error::InvalidPublicKey),
        }
    }

    /// The public key bytes, for sending.
    pub fn to_bytes(&self) -> (bytes: [u8; VERIFYING_KEY_LEN])
        ensures
            bytes@ == self@,
    {
        self.0
    }

    /// Checks `signature` over `message`.
    ///
    /// # Errors
    /// [`crate::crypto::Error::InvalidSignature`] if it does not verify,
    /// including when the key or the signature is small-order or not
    /// canonically encoded.
    pub fn verify(&self, message: &[u8], signature: &Signature) -> (result: Result<
        (),
        crate::crypto::Error,
    >)
        ensures
            result is Ok <==> ed25519_verifies_strictly(self@, message@, signature@),
            result is Err ==> result == Err::<(), crate::crypto::Error>(
                crate::crypto::Error::InvalidSignature,
            ),
    {
        match ed25519_verify_strict(&self.0, message, &signature.0) {
            Ok(()) => Ok(()),
            Err(_) => Err(crate::crypto::Error::InvalidSignature),
        }
    }
}

/// An Ed25519 signature.
#[derive(Debug, Clone, Copy, PartialEq, Eq)]
pub struct Signature([u8; SIGNATURE_LEN]);

impl View for Signature {
    type V = Seq<u8>;

    closed spec fn view(&self) -> Seq<u8> {
        self.0@
    }
}

impl Signature {
    /// A signature received from a peer; it is only checked by
    /// [`VerifyingKey::verify`].
    pub fn from_bytes(bytes: [u8; SIGNATURE_LEN]) -> (signature: Self)
        ensures
            signature@ == bytes@,
    {
        Signature(bytes)
    }

    /// The signature bytes, for sending.
    pub fn as_bytes(&self) -> (bytes: &[u8; SIGNATURE_LEN])
        ensures
            bytes@ == self@,
    {
        &self.0
    }
}

} // verus!
