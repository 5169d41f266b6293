//! The at-rest key hierarchy.
//!
//! A password-derived [`Kek`] wraps one random [`Dek`]; the DEK never
//! encrypts data itself but yields one subkey per [`Purpose`].

use vstd::prelude::*;

use crate::crypto::aead::{self, xchacha20_poly1305_seal, Nonce, NONCE_LEN};
use crate::crypto::kdf::{self, hkdf_sha512_okm};
use crate::crypto::secret::KEY_LEN;
use crate::crypto::SecretKey;
use crate::wire::{concat, copy_into, take_array};

verus! {

/// Length of a [`WrappedDek`]: nonce, encrypted DEK, tag.
pub const WRAPPED_DEK_LEN: usize = 72;

/// The associated data every DEK wrapping is sealed under: `QUIETWIRE-DEK-WRAP-v1`.
pub const WRAP_AAD: [u8; 21] = [
    0x51, 0x55, 0x49, 0x45, 0x54, 0x57, 0x49, 0x52, 0x45, 0x2d, 0x44, 0x45, 0x4b, 0x2d, 0x57, 0x52,
    0x41, 0x50, 0x2d, 0x76, 0x31,
];

/// The versioned prefix of every subkey label: `QUIETWIRE-DEK-v1`.
pub const SUBKEY_LABEL: [u8; 16] = [
    0x51, 0x55, 0x49, 0x45, 0x54, 0x57, 0x49, 0x52, 0x45, 0x2d, 0x44, 0x45, 0x4b, 0x2d, 0x76, 0x31,
];

/// `db`, `field`, `identity`, `sessions` and `meta`.
pub const DB_LABEL: [u8; 2] = [0x64, 0x62];
pub const FIELD_LABEL: [u8; 5] = [0x66, 0x69, 0x65, 0x6c, 0x64];
pub const IDENTITY_LABEL: [u8; 8] = [0x69, 0x64, 0x65, 0x6e, 0x74, 0x69, 0x74, 0x79];
pub const SESSIONS_LABEL: [u8; 8] = [0x73, 0x65, 0x73, 0x73, 0x69, 0x6f, 0x6e, 0x73];
pub const META_LABEL: [u8; 4] = [0x6d, 0x65, 0x74, 0x61];

/// Key-encryption key: its only job is wrapping the [`Dek`].
pub struct Kek(SecretKey);

impl View for Kek {
    type V = Seq<u8>;

    closed spec fn view(&self) -> Seq<u8> {
        self.0@
    }
}

impl Kek {
    /// A KEK holding the bytes of `key`.
    pub(crate) fn from_key(key: SecretKey) -> (kek: Kek)
        ensures
            kek@ == key@,
    {
        Kek(key)
    }
}

impl From<SecretKey> for Kek {
    fn from(key: SecretKey) -> (kek: Self)
        ensures
            kek@ == key@,
    {
        Kek(key)
    }
}

impl vstd::std_specs::convert::FromSpecImpl<SecretKey> for Kek {
    open spec fn obeys_from_spec() -> bool {
        true
    }

    closed spec fn from_spec(key: SecretKey) -> Kek {
        Kek(key)
    }
}

/// Data-encryption key: the root of every at-rest subkey.
///
/// Changing the password rewraps it; the data it protects is untouched.
pub struct Dek(SecretKey);

impl View for Dek {
    type V = Seq<u8>;

    closed spec fn view(&self) -> Seq<u8> {
        self.0@
    }
}

impl From<SecretKey> for Dek {
    fn from(key: SecretKey) -> (dek: Self)
        ensures
            dek@ == key@,
    {
        Dek(key)
    }
}

impl vstd::std_specs::convert::FromSpecImpl<SecretKey> for Dek {
    open spec fn obeys_from_spec() -> bool {
        true
    }

    closed spec fn from_spec(key: SecretKey) -> Dek {
        Dek(key)
    }
}

/// The 72 bytes that wrap `dek` under `kek`: a nonce, then the DEK sealed
/// under that nonce with [`WRAP_AAD`].
pub open spec fn wraps(kek: Seq<u8>, dek: Seq<u8>, wrapped: Seq<u8>) -> bool {
    &&& wrapped.len() == WRAPPED_DEK_LEN
    &&& wrapped.subrange(24, 72) == xchacha20_poly1305_seal(kek, wrapped.subrange(0, 24), WRAP_AAD@, dek)
}

/// The HKDF-SHA512 info of a subkey: the versioned prefix, then the label.
pub open spec fn subkey_info(purpose: Purpose) -> Seq<u8> {
    SUBKEY_LABEL@ + purpose_label(purpose)
}

/// The subkey a DEK yields for one purpose.
pub open spec fn subkey_of(dek: Seq<u8>, purpose: Purpose) -> Seq<u8> {
    hkdf_sha512_okm(dek, Seq::empty(), subkey_info(purpose), KEY_LEN as nat)
}

impl Dek {
    /// Draws a fresh DEK from the operating system RNG.
    ///
    /// # Errors
    /// [`crate::crypto::Error::Rng`] if the RNG fails.
    pub fn generate() -> (result: Result<Self, crate::crypto::Error>)
        ensures
            result is Err ==> result == Err::<Self, crate::crypto::Error>(
                crate::crypto::Error::Rng,
            ),
            result matches Ok(dek) ==> dek@.len() == KEY_LEN,
    {
        match SecretKey::random() {
            Ok(key) => Ok(Dek(key)),
            Err(error) => Err(error),
        }
    }

    /// Seals this DEK under `kek` with a fresh random nonce.
    ///
    /// # Errors
    /// [`crate::crypto::Error::Rng`] if the RNG fails.
    pub fn wrap_with(&self, kek: &Kek) -> (result: Result<WrappedDek, crate::crypto::Error>)
        ensures
            result is Err ==> result == Err::<WrappedDek, crate::crypto::Error>(
                crate::crypto::Error::Rng,
            ),
            result matches Ok(wrapped) ==> wraps(kek@, self@, wrapped@),
    {
        let nonce = match Nonce::random() {
            Ok(nonce) => nonce,
            Err(error) => return Err(error),
        };
        let dek = self.0.expose_secret();
        let sealed = match aead::seal(&kek.0, &nonce, WRAP_AAD.as_slice(), dek.as_slice()) {
            Ok(sealed) => sealed,
            Err(error) => return Err(error),
        };
        let mut bytes = [0u8; WRAPPED_DEK_LEN];
        copy_into(&mut bytes, 0, nonce.as_bytes().as_slice());
        copy_into(&mut bytes, NONCE_LEN, sealed.as_slice());
        assert(bytes@.subrange(0, 24) =~= nonce@);
        assert(bytes@.subrange(24, 72) =~= sealed@);
        Ok(WrappedDek(bytes))
    }

    /// HKDF-SHA512 of the DEK with no salt and info `QUIETWIRE-DEK-v1 ‖ label`.
    ///
    /// # Errors
    /// None in practice; the signature follows [`kdf::hkdf_sha512`].
    pub fn subkey(&self, purpose: Purpose) -> (result: Result<SecretKey, crate::crypto::Error>)
        ensures
            result matches Ok(key) && key@ == subkey_of(self@, purpose),
    {
        let info = concat(SUBKEY_LABEL.as_slice(), purpose.label());
        let empty: [u8; 0] = [];
        let okm = match kdf::hkdf_sha512(self.0.expose_secret().as_slice(), empty.as_slice(), info.as_slice(), KEY_LEN) {
            Ok(okm) => okm,
            Err(error) => return Err(error),
        };
        assert(empty@ =~= Seq::<u8>::empty());
        SecretKey::from_slice(okm.as_slice())
    }
}

/// What a DEK subkey protects. Each purpose gets an independent key.
#[derive(Debug, Clone, Copy, PartialEq, Eq)]
pub enum Purpose {
    /// Whole-database encryption.
    Db,
    /// Field-level encryption inside the database.
    Field,
    /// The long-term identity key material.
    Identity,
    /// Ratchet session state.
    Sessions,
    /// Metadata such as contact lists and settings.
    Meta,
}

/// The label of each purpose.
pub open spec fn purpose_label(purpose: Purpose) -> Seq<u8> {
    match purpose {
        Purpose::Db => DB_LABEL@,
        Purpose::Field => FIELD_LABEL@,
        Purpose::Identity => IDENTITY_LABEL@,
        Purpose::Sessions => SESSIONS_LABEL@,
        Purpose::Meta => META_LABEL@,
    }
}

impl Purpose {
    fn label(self) -> (label: &'static [u8])
        ensures
            label@ == purpose_label(self),
    {
        match self {
            Purpose::Db => DB_LABEL.as_slice(),
            Purpose::Field => FIELD_LABEL.as_slice(),
            Purpose::Identity => IDENTITY_LABEL.as_slice(),
            Purpose::Sessions => SESSIONS_LABEL.as_slice(),
            Purpose::Meta => META_LABEL.as_slice(),
        }
    }
}

/// A DEK sealed under a KEK: `nonce ‖ ciphertext ‖ tag`, safe to store.
#[derive(Debug, Clone, Copy, PartialEq, Eq)]
pub struct WrappedDek([u8; WRAPPED_DEK_LEN]);

impl View for WrappedDek {
    type V = Seq<u8>;

    closed spec fn view(&self) -> Seq<u8> {
        self.0@
    }
}

impl WrappedDek {
    /// A wrapped DEK read back from storage.
    pub fn from_bytes(bytes: [u8; WRAPPED_DEK_LEN]) -> (wrapped: Self)
        ensures
            wrapped@ == bytes@,
    {
        WrappedDek(bytes)
    }

    /// The bytes to store.
    pub fn to_bytes(&self) -> (bytes: [u8; WRAPPED_DEK_LEN])
        ensures
            bytes@ == self@,
    {
        self.0
    }

    /// Opens the DEK under `kek`.
    ///
    /// Whatever `wrap_with` sealed under the same KEK opens to the DEK it
    /// sealed, whichever nonce it drew.
    ///
    /// # Errors
    /// [`crate::crypto::Error::Authentication`] for a wrong KEK or any
    /// altered byte.
    pub fn unwrap_with(&self, kek: &Kek) -> (result: Result<Dek, crate::crypto::Error>)
        ensures
            result is Err ==> result == Err::<Dek, crate::crypto::Error>(
                crate::crypto::Error::Authentication,
            ),
            result matches Ok(dek) ==> wraps(kek@, dek@, self@),
            forall|dek: Seq<u8>| dek.len() == KEY_LEN && #[trigger] wraps(kek@, dek, self@) ==> (result matches Ok(opened) && opened@ == dek),
    {
        let nonce = Nonce::from_bytes(take_array(self.0.as_slice(), 0));
        let sealed = vstd::slice::slice_subrange(self.0.as_slice(), NONCE_LEN, WRAPPED_DEK_LEN);
        let opened = match aead::open(&kek.0, &nonce, WRAP_AAD.as_slice(), sealed) {
            Ok(opened) => opened,
            Err(error) => return Err(error),
        };
        match SecretKey::from_slice(opened.as_slice()) {
            Ok(key) => Ok(Dek(key)),
            Err(_) => Err(crate::crypto::Error::Authentication),
        }
    }
}

/// Each purpose's subkey is HKDF-SHA512 of the DEK, with no salt, 32 bytes,
/// under the info `QUIETWIRE-DEK-v1` followed by the purpose's label: `db`,
/// `field`, `identity`, `sessions` or `meta`. A wrapping is 72 bytes: a
/// 24-byte nonce, then the DEK sealed under the KEK and that nonce with the
/// associated data `QUIETWIRE-DEK-WRAP-v1`.
pub proof fn lemma_hierarchy_labels(dek: Seq<u8>, kek: Seq<u8>, wrapped: Seq<u8>)
    ensures
        subkey_of(dek, Purpose::Db) == hkdf_sha512_okm(dek, Seq::empty(), seq![0x51u8, 0x55, 0x49, 0x45, 0x54, 0x57, 0x49, 0x52, 0x45, 0x2d, 0x44, 0x45, 0x4b, 0x2d, 0x76, 0x31, 0x64, 0x62], 32),
        subkey_of(dek, Purpose::Field) == hkdf_sha512_okm(dek, Seq::empty(), seq![0x51u8, 0x55, 0x49, 0x45, 0x54, 0x57, 0x49, 0x52, 0x45, 0x2d, 0x44, 0x45, 0x4b, 0x2d, 0x76, 0x31, 0x66, 0x69, 0x65, 0x6c, 0x64], 32),
        subkey_of(dek, Purpose::Identity) == hkdf_sha512_okm(dek, Seq::empty(), seq![0x51u8, 0x55, 0x49, 0x45, 0x54, 0x57, 0x49, 0x52, 0x45, 0x2d, 0x44, 0x45, 0x4b, 0x2d, 0x76, 0x31, 0x69, 0x64, 0x65, 0x6e, 0x74, 0x69, 0x74, 0x79], 32),
        subkey_of(dek, Purpose::Sessions) == hkdf_sha512_okm(dek, Seq::empty(), seq![0x51u8, 0x55, 0x49, 0x45, 0x54, 0x57, 0x49, 0x52, 0x45, 0x2d, 0x44, 0x45, 0x4b, 0x2d, 0x76, 0x31, 0x73, 0x65, 0x73, 0x73, 0x69, 0x6f, 0x6e, 0x73], 32),
        subkey_of(dek, Purpose::Meta) == hkdf_sha512_okm(dek, Seq::empty(), seq![0x51u8, 0x55, 0x49, 0x45, 0x54, 0x57, 0x49, 0x52, 0x45, 0x2d, 0x44, 0x45, 0x4b, 0x2d, 0x76, 0x31, 0x6d, 0x65, 0x74, 0x61], 32),
        wraps(kek, dek, wrapped) <==> (wrapped.len() == 72 && wrapped.subrange(24, 72)
            == xchacha20_poly1305_seal(kek, wrapped.subrange(0, 24), seq![0x51u8, 0x55, 0x49, 0x45, 0x54, 0x57, 0x49, 0x52, 0x45, 0x2d, 0x44, 0x45, 0x4b, 0x2d, 0x57, 0x52, 0x41, 0x50, 0x2d, 0x76, 0x31], dek)),
{
    assert(subkey_info(Purpose::Db) =~= seq![0x51u8, 0x55, 0x49, 0x45, 0x54, 0x57, 0x49, 0x52, 0x45, 0x2d, 0x44, 0x45, 0x4b, 0x2d, 0x76, 0x31, 0x64, 0x62]);
    assert(subkey_info(Purpose::Field) =~= seq![0x51u8, 0x55, 0x49, 0x45, 0x54, 0x57, 0x49, 0x52, 0x45, 0x2d, 0x44, 0x45, 0x4b, 0x2d, 0x76, 0x31, 0x66, 0x69, 0x65, 0x6c, 0x64]);
    assert(subkey_info(Purpose::Identity) =~= seq![0x51u8, 0x55, 0x49, 0x45, 0x54, 0x57, 0x49, 0x52, 0x45, 0x2d, 0x44, 0x45, 0x4b, 0x2d, 0x76, 0x31, 0x69, 0x64, 0x65, 0x6e, 0x74, 0x69, 0x74, 0x79]);
    assert(subkey_info(Purpose::Sessions) =~= seq![0x51u8, 0x55, 0x49, 0x45, 0x54, 0x57, 0x49, 0x52, 0x45, 0x2d, 0x44, 0x45, 0x4b, 0x2d, 0x76, 0x31, 0x73, 0x65, 0x73, 0x73, 0x69, 0x6f, 0x6e, 0x73]);
    assert(subkey_info(Purpose::Meta) =~= seq![0x51u8, 0x55, 0x49, 0x45, 0x54, 0x57, 0x49, 0x52, 0x45, 0x2d, 0x44, 0x45, 0x4b, 0x2d, 0x76, 0x31, 0x6d, 0x65, 0x74, 0x61]);
    assert(WRAP_AAD@ =~= seq![0x51u8, 0x55, 0x49, 0x45, 0x54, 0x57, 0x49, 0x52, 0x45, 0x2d, 0x44, 0x45, 0x4b, 0x2d, 0x57, 0x52, 0x41, 0x50, 0x2d, 0x76, 0x31]);
}

} // verus!
