//! Argon2id password key derivation (RFC 9106), producing the [`Kek`].

use argon2::Error as Argon2Error;
use argon2::{Algorithm, Argon2, Params, Version};
use vstd::prelude::*;
use zeroize::Zeroizing;

use crate::crypto::hierarchy::Kek;
use crate::crypto::rng::random_array;
use crate::crypto::secret::{key_bytes_held, KeyBytes};
use crate::crypto::SecretKey;

verus! {

/// Length of a [`Salt`] in bytes.
pub const SALT_LEN: usize = 32;

/// Longest password Argon2 takes, in bytes.
pub const MAX_PASSWORD_LEN: usize = 0xFFFF_FFFF;

#[verifier::external_type_specification]
#[verifier::external_body]
pub struct ExArgon2Error(Argon2Error);

/// The 32-byte Argon2id v1.3 output for `password` and `salt` at the given
/// memory (KiB), pass and lane counts.
pub uninterp spec fn argon2id_v13(password: Seq<u8>, salt: Seq<u8>, memory_kib: u32, iterations: u32, parallelism: u32) -> Seq<u8>;

/// The cost parameters `argon2::Params::new` accepts with a 32-byte output:
/// at least 8 KiB of memory per lane, at least one pass, and between one and
/// 2^24 - 1 lanes.
pub open spec fn argon2_params_accepted(memory_kib: u32, iterations: u32, parallelism: u32) -> bool {
    &&& memory_kib >= 8
    &&& memory_kib >= 8 * parallelism
    &&& iterations >= 1
    &&& 1 <= parallelism <= 0xFF_FFFF
}

/// `Params::new(memory_kib, iterations, parallelism, Some(32))`, `Argon2::new`
/// for Argon2id v1.3, then `hash_password_into` a wiping buffer. Claims that
/// it fails exactly when the parameters are refused or the password is
/// longer than Argon2 takes, and that otherwise the buffer holds the named
/// output. Lane counts of 2^29 and above overflow the source's own check, so
/// they are not admitted.
#[verifier::external_body]
fn argon2id_hash(password: &[u8], salt: &[u8; SALT_LEN], memory_kib: u32, iterations: u32, parallelism: u32) -> (result: Result<KeyBytes, Argon2Error>)
    requires
        parallelism < 0x2000_0000,
    ensures
        result is Ok <==> (argon2_params_accepted(memory_kib, iterations, parallelism) && password@.len() <= MAX_PASSWORD_LEN),
        result matches Ok(key) ==> key_bytes_held(key) == argon2id_v13(password@, salt@, memory_kib, iterations, parallelism),
{
    let params = Params::new(memory_kib, iterations, parallelism, Some(32))?;
    let argon2 = Argon2::new(Algorithm::Argon2id, Version::V0x13, params);
    let mut key = Zeroizing::new([0u8; 32]);
    argon2.hash_password_into(password, salt, &mut *key)?;
    Ok(KeyBytes { inner: key })
}

/// Argon2id cost parameters: the two profiles of the key hierarchy, or
/// others made with [`KdfParams::custom`].
#[allow(non_camel_case_types)]
#[derive(Debug, Clone, Copy, PartialEq, Eq)]
pub enum KdfParams {
    /// 256 MiB, 4 passes, 2 lanes.
    MOBILE,
    /// 1 GiB, 4 passes, 2 lanes.
    DESKTOP,
    /// Any other choice of memory (KiB), passes and lanes.
    Custom { memory_kib: u32, iterations: u32, parallelism: u32 },
}

impl KdfParams {
    /// The memory cost, in KiB.
    pub open spec fn memory_of(self) -> u32 {
        match self {
            KdfParams::MOBILE => 262_144,
            KdfParams::DESKTOP => 1_048_576,
            KdfParams::Custom { memory_kib, .. } => memory_kib,
        }
    }

    /// The number of passes.
    pub open spec fn iterations_of(self) -> u32 {
        match self {
            KdfParams::Custom { iterations, .. } => iterations,
            _ => 4,
        }
    }

    /// The number of lanes.
    pub open spec fn parallelism_of(self) -> u32 {
        match self {
            KdfParams::Custom { parallelism, .. } => parallelism,
            _ => 2,
        }
    }

    /// Whether the value is written the one way it has: a profile's costs are
    /// never held as [`KdfParams::Custom`].
    pub open spec fn canonical(self) -> bool {
        match self {
            KdfParams::Custom { memory_kib, iterations, parallelism } => !(iterations == 4
                && parallelism == 2 && (memory_kib == 262_144 || memory_kib == 1_048_576)),
            _ => true,
        }
    }

    /// Cost parameters of one's own choosing; [`derive_kek`] refuses those
    /// Argon2 does not take. The costs of a profile give that profile.
    pub fn custom(memory_kib: u32, iterations: u32, parallelism: u32) -> (params: Self)
        ensures
            params.memory_of() == memory_kib,
            params.iterations_of() == iterations,
            params.parallelism_of() == parallelism,
            params.canonical(),
    {
        if iterations == 4 && parallelism == 2 && memory_kib == 262_144 {
            KdfParams::MOBILE
        } else if iterations == 4 && parallelism == 2 && memory_kib == 1_048_576 {
            KdfParams::DESKTOP
        } else {
            KdfParams::Custom { memory_kib, iterations, parallelism }
        }
    }

    /// Memory cost in KiB.
    pub fn memory_kib(&self) -> (memory_kib: u32)
        ensures
            memory_kib == self.memory_of(),
    {
        match self {
            KdfParams::MOBILE => 262_144,
            KdfParams::DESKTOP => 1_048_576,
            KdfParams::Custom { memory_kib, .. } => *memory_kib,
        }
    }

    /// Number of passes over memory.
    pub fn iterations(&self) -> (iterations: u32)
        ensures
            iterations == self.iterations_of(),
    {
        match self {
            KdfParams::Custom { iterations, .. } => *iterations,
            _ => 4,
        }
    }

    /// Number of lanes.
    pub fn parallelism(&self) -> (parallelism: u32)
        ensures
            parallelism == self.parallelism_of(),
    {
        match self {
            KdfParams::Custom { parallelism, .. } => *parallelism,
            _ => 2,
        }
    }
}

/// A per-installation random salt, stored next to the wrapped DEK.
#[derive(Debug, Clone, Copy, PartialEq, Eq)]
pub struct Salt([u8; SALT_LEN]);

impl View for Salt {
    type V = Seq<u8>;

    closed spec fn view(&self) -> Seq<u8> {
        self.0@
    }
}

impl Salt {
    /// Draws a fresh salt from the operating system RNG.
    ///
    /// # Errors
    /// [`crate::crypto::Error::Rng`] if the RNG fails.
    pub fn random() -> (result: Result<Self, crate::crypto::Error>)
        ensures
            result is Err ==> result == Err::<Self, crate::crypto::Error>(
                crate::crypto::Error::Rng,
            ),
            result matches Ok(salt) ==> salt@.len() == SALT_LEN,
    {
        match random_array() {
            Ok(bytes) => Ok(Salt(bytes)),
            Err(_) => Err(crate::crypto::Error::Rng),
        }
    }

    /// A salt read back from storage.
    pub fn from_bytes(bytes: [u8; SALT_LEN]) -> (salt: Self)
        ensures
            salt@ == bytes@,
    {
        Salt(bytes)
    }

    /// The salt bytes, for storage.
    pub fn as_bytes(&self) -> (bytes: &[u8; SALT_LEN])
        ensures
            bytes@ == self@,
    {
        &self.0
    }
}

/// Argon2id v1.3 of `password` and `salt` into a 32-byte [`Kek`].
///
/// # Errors
/// [`crate::crypto::Error::Kdf`] if the parameters are rejected (less than
/// 8 KiB of memory per lane, no pass, no lane or more than 2^24 - 1 lanes) or
/// the password is longer than Argon2 takes. A lane count of 2^29 or more
/// overflows Argon2's own parameter check, so it is not admitted.
pub fn derive_kek(password: &[u8], salt: &Salt, params: &KdfParams) -> (result: Result<Kek, crate::crypto::Error>)
    requires
        params.parallelism_of() < 0x2000_0000,
    ensures
        result is Ok <==> (argon2_params_accepted(
            params.memory_of(),
            params.iterations_of(),
            params.parallelism_of(),
        ) && password@.len() <= MAX_PASSWORD_LEN),
        result is Err ==> result == Err::<Kek, crate::crypto::Error>(crate::crypto::Error::Kdf),
        result matches Ok(kek) ==> kek@ == argon2id_v13(password@, salt@, params.memory_of(), params.iterations_of(), params.parallelism_of()),
{
    match argon2id(password, salt, params) {
        Ok(key) => Ok(Kek::from_key(key)),
        Err(error) => Err(error),
    }
}

fn argon2id(password: &[u8], salt: &Salt, params: &KdfParams) -> (result: Result<SecretKey, crate::crypto::Error>)
    requires
        params.parallelism_of() < 0x2000_0000,
    ensures
        result is Ok <==> (argon2_params_accepted(
            params.memory_of(),
            params.iterations_of(),
            params.parallelism_of(),
        ) && password@.len() <= MAX_PASSWORD_LEN),
        result is Err ==> result == Err::<SecretKey, crate::crypto::Error>(crate::crypto::Error::Kdf),
        result matches Ok(key) ==> key@ == argon2id_v13(password@, salt@, params.memory_of(), params.iterations_of(), params.parallelism_of()),
{
    match argon2id_hash(password, &salt.0, params.memory_kib(), params.iterations(), params.parallelism()) {
        Ok(key) => Ok(SecretKey::from_key_bytes(key)),
        Err(_) => Err(crate::crypto::Error::Kdf),
    }
}

} // verus!
