//! Key material that is wiped when it is dropped, and compared in constant time.

use subtle::ConstantTimeEq;
use vstd::prelude::*;
use zeroize::Zeroizing;

use crate::crypto::rng::os_fill;

verus! {

pub const KEY_LEN: usize = 32;

/// Thirty-two key bytes held in a `zeroize::Zeroizing` buffer, which
/// overwrites them with zeroes when it is dropped.
///
/// The buffer is hidden from the verifier, which sees only the bytes it holds,
/// through [`key_bytes_held`]; the wiping itself is `zeroize`'s and is not
/// proved here.
#[verifier::external_body]
pub struct KeyBytes {
    pub(crate) inner: Zeroizing<[u8; KEY_LEN]>,
}

/// The bytes a [`KeyBytes`] holds.
pub uninterp spec fn key_bytes_held(key: KeyBytes) -> Seq<u8>;

impl KeyBytes {
    /// Copies `bytes` into a fresh wiping buffer (`Zeroizing::new`, then
    /// `copy_from_slice`). Claims that the buffer then holds exactly `bytes`.
    #[verifier::external_body]
    pub(crate) fn copy_of(bytes: &[u8]) -> (key: KeyBytes)
        requires
            bytes@.len() == KEY_LEN,
        ensures
            key_bytes_held(key) == bytes@,
    {
        let mut inner = Zeroizing::new([0u8; KEY_LEN]);
        inner.copy_from_slice(bytes);
        KeyBytes { inner }
    }

    /// The bytes held, borrowed through `Zeroizing`'s `Deref`. Claims they are
    /// the 32 bytes [`key_bytes_held`] names.
    #[verifier::external_body]
    pub(crate) fn bytes(&self) -> (bytes: &[u8; KEY_LEN])
        ensures
            bytes@ == key_bytes_held(*self),
    {
        &self.inner
    }
}

/// A byte string of any length held in a `zeroize::Zeroizing<Vec<u8>>`, which
/// overwrites it with zeroes when it is dropped.
///
/// The buffer is hidden from the verifier, which sees only the bytes it holds,
/// through [`secret_buffer_held`]; the wiping itself is `zeroize`'s and is not
/// proved here.
#[verifier::external_body]
pub struct SecretBuffer {
    pub(crate) inner: Zeroizing<Vec<u8>>,
}

/// The bytes a [`SecretBuffer`] holds.
pub uninterp spec fn secret_buffer_held(buffer: SecretBuffer) -> Seq<u8>;

impl SecretBuffer {
    /// Moves `bytes` into a wiping buffer (`Zeroizing::new`). Claims that the
    /// buffer holds exactly `bytes`.
    #[verifier::external_body]
    pub(crate) fn wrap(bytes: Vec<u8>) -> (buffer: SecretBuffer)
        ensures
            secret_buffer_held(buffer) == bytes@,
    {
        SecretBuffer { inner: Zeroizing::new(bytes) }
    }

    /// The bytes held, borrowed through `Zeroizing`'s `Deref`. Claims they are
    /// the bytes [`secret_buffer_held`] names.
    #[verifier::external_body]
    pub(crate) fn held(&self) -> (bytes: &[u8])
        ensures
            bytes@ == secret_buffer_held(*self),
    {
        &self.inner
    }

    /// The bytes held.
    pub fn as_slice(&self) -> (bytes: &[u8])
        ensures
            bytes@ == secret_buffer_held(*self),
    {
        self.held()
    }

    /// How many bytes are held.
    pub fn len(&self) -> (len: usize)
        ensures
            len == secret_buffer_held(*self).len(),
    {
        self.held().len()
    }
}

/// `subtle::ConstantTimeEq` over two byte slices: whether they hold the same
/// bytes, found without stopping at the first difference. Claims exactly
/// that equality; the constant timing is `subtle`'s and is not proved here.
#[verifier::external_body]
pub(crate) fn constant_time_eq(left: &[u8], right: &[u8]) -> (equal: bool)
    ensures
        equal == (left@ == right@),
{
    bool::from(left.ct_eq(right))
}

/// A 32-byte symmetric key for long-lived secrets.
///
/// It is wiped when dropped, has no `Debug`, `Display` or `Clone`, and
/// compares in constant time.
pub struct SecretKey {
    key: KeyBytes,
}

impl View for SecretKey {
    type V = Seq<u8>;

    closed spec fn view(&self) -> Seq<u8> {
        key_bytes_held(self.key)
    }
}

impl SecretKey {
    /// A key holding the bytes of a wiping buffer.
    pub(crate) fn from_key_bytes(key: KeyBytes) -> (secret: SecretKey)
        ensures
            secret@ == key_bytes_held(key),
    {
        SecretKey { key }
    }

    /// Draws a fresh key from the operating system RNG.
    ///
    /// # Errors
    /// [`crate::crypto::Error::Rng`] if the RNG fails.
    pub fn random() -> (result: Result<Self, crate::crypto::Error>)
        ensures
            result is Err ==> result == Err::<Self, crate::crypto::Error>(
                crate::crypto::Error::Rng,
            ),
            result matches Ok(key) ==> key@.len() == KEY_LEN,
    {
        let mut drawn = [0u8; KEY_LEN];
        let filled = os_fill(&mut drawn);
        let key = match filled {
            Ok(()) => Ok(SecretKey { key: KeyBytes::copy_of(drawn.as_slice()) }),
            Err(_) => Err(crate::crypto::Error::Rng),
        };
        wipe(&mut drawn);
        key
    }

    /// Copies exactly 32 bytes into a new key.
    ///
    /// # Errors
    /// [`crate::crypto::Error::InvalidLength`] for any other length.
    pub fn from_slice(bytes: &[u8]) -> (result: Result<Self, crate::crypto::Error>)
        ensures
            bytes@.len() != KEY_LEN ==> result == Err::<Self, crate::crypto::Error>(
                crate::crypto::Error::InvalidLength,
            ),
            bytes@.len() == KEY_LEN ==> (result matches Ok(key) && key@ == bytes@),
    {
        if bytes.len() != KEY_LEN {
            return Err(crate::crypto::Error::InvalidLength);
        }
        Ok(SecretKey { key: KeyBytes::copy_of(bytes) })
    }

    /// The key bytes, for handing to a primitive.
    pub fn expose_secret(&self) -> (bytes: &[u8; KEY_LEN])
        ensures
            bytes@ == self@,
    {
        self.key.bytes()
    }

    /// A second key holding the same bytes.
    pub(crate) fn duplicate(&self) -> (copy: SecretKey)
        ensures
            copy@ == self@,
    {
        SecretKey { key: KeyBytes::copy_of(self.key.bytes().as_slice()) }
    }
}

/// Overwrites a stack copy of key material with zeroes.
pub(crate) fn wipe<const N: usize>(bytes: &mut [u8; N])
    ensures
        final(bytes)@ == Seq::new(N as nat, |i: int| 0u8),
{
    let mut i: usize = 0;
    while i < N
        invariant
            i <= N,
            bytes@.len() == N,
            forall|j: int| 0 <= j < i ==> #[trigger] bytes@[j] == 0u8,
        decreases N - i,
    {
        bytes[i] = 0;
        i = i + 1;
    }
    assert(bytes@ =~= Seq::new(N as nat, |i: int| 0u8));
}

impl PartialEq for SecretKey {
    fn eq(&self, other: &Self) -> (equal: bool) {
        constant_time_eq(self.key.bytes().as_slice(), other.key.bytes().as_slice())
    }
}

impl vstd::std_specs::cmp::PartialEqSpecImpl for SecretKey {
    open spec fn obeys_eq_spec() -> bool {
        true
    }

    open spec fn eq_spec(&self, other: &SecretKey) -> bool {
        self@ == other@
    }
}

impl Eq for SecretKey {

}

} // verus!
