//! ML-KEM-768 key encapsulation (FIPS 203).

use ml_kem::InvalidKey as MlKemInvalidKey;
use ml_kem::{ml_kem_768, Decapsulate, KeyExport};
use vstd::prelude::*;
use zeroize::Zeroizing;

use crate::crypto::rng::random_array;
use crate::crypto::secret::{key_bytes_held, wipe, KeyBytes};
use crate::crypto::stack::scrubbed;
use crate::crypto::SecretKey;

verus! {

/// Length of an [`EncapsulationKey`] in bytes.
pub const ENCAPSULATION_KEY_LEN: usize = 1184;
/// Length of a [`Ciphertext`] in bytes.
pub const CIPHERTEXT_LEN: usize = 1088;

#[verifier::external_type_specification]
#[verifier::external_body]
pub struct ExMlKemInvalidKey(MlKemInvalidKey);

/// Whether `key` passes the FIPS 203 encapsulation key check (type and
/// modulus check).
pub uninterp spec fn ml_kem_768_key_check(key: Seq<u8>) -> bool;

/// The encapsulation key `ML-KEM.KeyGen_internal` derives from the seed `(d, z)`.
pub uninterp spec fn ml_kem_768_public_of_seed(d: Seq<u8>, z: Seq<u8>) -> Seq<u8>;

/// The ciphertext and shared key `ML-KEM.Encaps_internal` makes for `key`
/// with the randomness `m`.
pub uninterp spec fn ml_kem_768_encapsulation(key: Seq<u8>, m: Seq<u8>) -> (Seq<u8>, Seq<u8>);

/// The shared key `ML-KEM.Decaps` of the key of seed `(d, z)` finds in
/// `ciphertext`: the encapsulated key, or the implicit-rejection key.
pub uninterp spec fn ml_kem_768_decapsulation(d: Seq<u8>, z: Seq<u8>, ciphertext: Seq<u8>) -> Seq<u8>;

/// `ml_kem_768::DecapsulationKey::from_seed(d || z)`, then
/// `encapsulation_key().to_bytes()`. Claims the bytes are the named key of
/// the seed, and that a key generated this way passes the key check.
#[verifier::external_body]
fn ml_kem_768_public(d: &[u8; 32], z: &[u8; 32]) -> (public: [u8; ENCAPSULATION_KEY_LEN])
    ensures
        public@ == ml_kem_768_public_of_seed(d@, z@),
        ml_kem_768_key_check(public@),
{
    let mut seed = Zeroizing::new([0u8; 64]);
    seed[..32].copy_from_slice(d);
    seed[32..].copy_from_slice(z);
    ml_kem_768::DecapsulationKey::from_seed((*seed).into()).encapsulation_key().to_bytes().into()
}

/// `ml_kem_768::DecapsulationKey::from_seed(d || z).decapsulate(ciphertext)`,
/// the shared key moved into a wiping buffer. Claims it holds the named
/// decapsulation.
#[verifier::external_body]
fn ml_kem_768_decapsulate(d: &[u8; 32], z: &[u8; 32], ciphertext: &[u8; CIPHERTEXT_LEN]) -> (shared: KeyBytes)
    ensures
        key_bytes_held(shared) == ml_kem_768_decapsulation(d@, z@, ciphertext@),
{
    let mut seed = Zeroizing::new([0u8; 64]);
    seed[..32].copy_from_slice(d);
    seed[32..].copy_from_slice(z);
    let key = ml_kem_768::DecapsulationKey::from_seed((*seed).into());
    KeyBytes { inner: Zeroizing::new(key.decapsulate(&(*ciphertext).into()).0) }
}

/// `ml_kem_768::EncapsulationKey::new`, keeping only whether it succeeded:
/// claims the result is the named key check.
#[verifier::external_body]
fn ml_kem_768_check(key: &[u8; ENCAPSULATION_KEY_LEN]) -> (result: Result<(), MlKemInvalidKey>)
    ensures
        result is Ok == ml_kem_768_key_check(key@),
{
    ml_kem_768::EncapsulationKey::new(&(*key).into()).map(|_| ())
}

/// `ml_kem_768::EncapsulationKey::new(key)`, then
/// `encapsulate_deterministic(m)`, the shared key moved into a wiping
/// buffer. Claims the parse fails exactly when the key check does, and that
/// otherwise the ciphertext and key are the named encapsulation.
#[verifier::external_body]
fn ml_kem_768_encapsulate(key: &[u8; ENCAPSULATION_KEY_LEN], m: &[u8; 32]) -> (result: Result<([u8; CIPHERTEXT_LEN], KeyBytes), MlKemInvalidKey>)
    ensures
        result is Ok == ml_kem_768_key_check(key@),
        result matches Ok(pair) ==> pair.0@ == ml_kem_768_encapsulation(key@, m@).0 && key_bytes_held(pair.1) == ml_kem_768_encapsulation(key@, m@).1,
{
    let key = ml_kem_768::EncapsulationKey::new(&(*key).into())?;
    let (ciphertext, shared) = key.encapsulate_deterministic(&(*m).into());
    Ok((ciphertext.into(), KeyBytes { inner: Zeroizing::new(shared.0) }))
}

/// An ML-KEM-768 decapsulation key, kept as its FIPS 203 seed `(d, z)` and
/// wiped on drop.
pub struct DecapsulationKey {
    d: SecretKey,
    z: SecretKey,
}

impl DecapsulationKey {
    /// The first half of the seed.
    pub closed spec fn seed_d(&self) -> Seq<u8> {
        self.d@
    }

    /// The second half of the seed, used for implicit rejection.
    pub closed spec fn seed_z(&self) -> Seq<u8> {
        self.z@
    }

    /// Draws a fresh seed from the operating system RNG.
    ///
    /// # Errors
    /// [`crate::crypto::Error::Rng`] if the RNG fails.
    pub fn generate() -> (result: Result<Self, crate::crypto::Error>)
        ensures
            result is Err ==> result == Err::<Self, crate::crypto::Error>(
                crate::crypto::Error::Rng,
            ),
            result matches Ok(key) ==> key.seed_d().len() == 32 && key.seed_z().len() == 32,
    {
        let d = match SecretKey::random() {
            Ok(d) => d,
            Err(error) => return Err(error),
        };
        let z = match SecretKey::random() {
            Ok(z) => z,
            Err(error) => return Err(error),
        };
        Ok(Self::from_seed(d, z))
    }

    /// The key FIPS 203 `ML-KEM.KeyGen_internal` derives from `d` and `z`.
    pub fn from_seed(d: SecretKey, z: SecretKey) -> (key: Self)
        ensures
            key.seed_d() == d@,
            key.seed_z() == z@,
    {
        DecapsulationKey { d, z }
    }

    /// The public key matching this key.
    pub fn encapsulation_key(&self) -> (public: EncapsulationKey)
        ensures
            public@ == ml_kem_768_public_of_seed(self.seed_d(), self.seed_z()),
            ml_kem_768_key_check(public@),
    {
        let d = self.d.expose_secret();
        let z = self.z.expose_secret();
        let operation = || -> (public: EncapsulationKey)
            ensures
                public@ == ml_kem_768_public_of_seed(d@, z@),
                ml_kem_768_key_check(public@)
            {
                EncapsulationKey(ml_kem_768_public(d, z))
            };
        scrubbed(operation)
    }

    /// The shared key sent in `ciphertext`. A ciphertext that was not produced
    /// for this key yields an unrelated key (implicit rejection), never an
    /// error.
    pub fn decapsulate(&self, ciphertext: &Ciphertext) -> (shared: SecretKey)
        ensures
            shared@ == ml_kem_768_decapsulation(self.seed_d(), self.seed_z(), ciphertext@),
    {
        let d = self.d.expose_secret();
        let z = self.z.expose_secret();
        let operation = || -> (shared: SecretKey)
            ensures
                shared@ == ml_kem_768_decapsulation(d@, z@, ciphertext@)
            {
                SecretKey::from_key_bytes(ml_kem_768_decapsulate(d, z, &ciphertext.0))
            };
        scrubbed(operation)
    }
}

/// An ML-KEM-768 encapsulation key.
#[derive(Debug, Clone, Copy, PartialEq, Eq)]
pub struct EncapsulationKey([u8; ENCAPSULATION_KEY_LEN]);

impl View for EncapsulationKey {
    type V = Seq<u8>;

    closed spec fn view(&self) -> Seq<u8> {
        self.0@
    }
}

impl EncapsulationKey {
    #[verifier::type_invariant]
    spec fn checked(self) -> bool {
        ml_kem_768_key_check(self.0@)
    }

    /// Parses a public key received from a peer.
    ///
    /// # Errors
    /// [`crate::crypto::Error::InvalidPublicKey`] if it fails the FIPS 203
    /// modulus check.
    pub fn from_bytes(bytes: &[u8; ENCAPSULATION_KEY_LEN]) -> (result: Result<
        Self,
        crate::crypto::Error,
    >)
        ensures
            result is Ok <==> ml_kem_768_key_check(bytes@),
            result is Err ==> result == Err::<Self, crate::crypto::Error>(
                crate::crypto::Error::InvalidPublicKey,
            ),
            result matches Ok(key) ==> key@ == bytes@,
    {
        match ml_kem_768_check(bytes) {
            Ok(()) => Ok(EncapsulationKey(*bytes)),
            Err(_) => Err(crate::crypto::Error::InvalidPublicKey),
        }
    }

    /// The public key bytes, for sending.
    pub fn to_bytes(&self) -> (bytes: [u8; ENCAPSULATION_KEY_LEN])
        ensures
            bytes@ == self@,
    {
        self.0
    }

    /// A fresh shared key and the ciphertext that carries it to the holder of
    /// the matching [`DecapsulationKey`].
    ///
    /// # Errors
    /// [`crate::crypto::Error::Rng`] if the RNG fails.
    pub fn encapsulate(&self) -> (result: Result<(Ciphertext, SecretKey), crate::crypto::Error>)
        ensures
            result is Err ==> result == Err::<(Ciphertext, SecretKey), crate::crypto::Error>(
                crate::crypto::Error::Rng,
            ),
            result matches Ok(pair) ==> exists|m: Seq<u8>|
                m.len() == 32 && pair.0@ == #[trigger] ml_kem_768_encapsulation(self@, m).0
                    && pair.1@ == ml_kem_768_encapsulation(self@, m).1,
    {
        let mut randomness: [u8; 32] = match random_array() {
            Ok(bytes) => bytes,
            Err(_) => return Err(crate::crypto::Error::Rng),
        };
        let result = self.encapsulate_with(&randomness);
        wipe(&mut randomness);
        Ok(result)
    }

    /// The ciphertext and shared key for the given randomness.
    pub(crate) fn encapsulate_with(&self, randomness: &[u8; 32]) -> (pair: (Ciphertext, SecretKey))
        ensures
            pair.0@ == ml_kem_768_encapsulation(self@, randomness@).0,
            pair.1@ == ml_kem_768_encapsulation(self@, randomness@).1,
    {
        proof {
            use_type_invariant(self);
        }
        let key = &self.0;
        let operation = || -> (pair: (Ciphertext, SecretKey))
            requires
                ml_kem_768_key_check(key@),
            ensures
                pair.0@ == ml_kem_768_encapsulation(key@, randomness@).0,
                pair.1@ == ml_kem_768_encapsulation(key@, randomness@).1
            {
                match ml_kem_768_encapsulate(key, randomness) {
                    Ok((ciphertext, shared)) => (
                        Ciphertext(ciphertext),
                        SecretKey::from_key_bytes(shared),
                    ),
                    Err(_) => {
                        proof {
                            assert(false);
                        }
                        (
                            Ciphertext([0u8; CIPHERTEXT_LEN]),
                            SecretKey::from_key_bytes(KeyBytes::copy_of([0u8; 32].as_slice())),
                        )
                    },
                }
            };
        scrubbed(operation)
    }
}

/// An ML-KEM-768 ciphertext.
#[derive(Debug, Clone, Copy, PartialEq, Eq)]
pub struct Ciphertext([u8; CIPHERTEXT_LEN]);

impl View for Ciphertext {
    type V = Seq<u8>;

    closed spec fn view(&self) -> Seq<u8> {
        self.0@
    }
}

impl Ciphertext {
    /// A ciphertext received from a peer. Every byte string of this length is
    /// accepted; see [`DecapsulationKey::decapsulate`].
    pub fn from_bytes(bytes: [u8; CIPHERTEXT_LEN]) -> (ciphertext: Self)
        ensures
            ciphertext@ == bytes@,
    {
        Ciphertext(bytes)
    }

    /// The ciphertext bytes, for sending.
    pub fn as_bytes(&self) -> (bytes: &[u8; CIPHERTEXT_LEN])
        ensures
            bytes@ == self@,
    {
        &self.0
    }
}

} // verus!
