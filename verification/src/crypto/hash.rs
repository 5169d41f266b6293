//! BLAKE3 in its keyed and key-derivation modes.

use vstd::prelude::*;
use zeroize::Zeroizing;

use crate::crypto::secret::{key_bytes_held, KeyBytes};
use crate::crypto::SecretKey;

verus! {

/// The BLAKE3 keyed hash of `input` under a 32-byte `key`.
pub uninterp spec fn blake3_keyed_hash(key: Seq<u8>, input: Seq<u8>) -> Seq<u8>;

/// The BLAKE3 key derived from `key_material` in the domain named by `context`.
pub uninterp spec fn blake3_derive_key(context: Seq<char>, key_material: Seq<u8>) -> Seq<u8>;

/// `blake3::keyed_hash`: claims the 32-byte result is the named keyed hash of
/// `input` under `key`.
#[verifier::external_body]
fn blake3_keyed(key: &[u8; 32], input: &[u8]) -> (hash: [u8; 32])
    ensures
        hash@ == blake3_keyed_hash(key@, input@),
{
    blake3::keyed_hash(key, input).into()
}

/// `blake3::derive_key`, its output moved into a wiping buffer: claims the
/// buffer holds the named derived key of `key_material` under `context`.
#[verifier::external_body]
fn blake3_derive(context: &'static str, key_material: &[u8]) -> (key: KeyBytes)
    ensures
        key_bytes_held(key) == blake3_derive_key(context@, key_material@),
{
    KeyBytes { inner: Zeroizing::new(blake3::derive_key(context, key_material)) }
}

/// BLAKE3 keyed hash of `input`: a MAC and PRF under `key`.
pub fn keyed_hash(key: &SecretKey, input: &[u8]) -> (hash: [u8; 32])
    ensures
        hash@ == blake3_keyed_hash(key@, input@),
{
    blake3_keyed(key.expose_secret(), input)
}

/// BLAKE3 key derivation from `key_material`, domain-separated by `context`.
///
/// `context` must be a hard-coded, globally unique, application-specific
/// string, which is why only `'static` strings are accepted.
pub fn derive_key(context: &'static str, key_material: &[u8]) -> (key: SecretKey)
    ensures
        key@ == blake3_derive_key(context@, key_material@),
{
    SecretKey::from_key_bytes(blake3_derive(context, key_material))
}

} // verus!
