//! X25519 Diffie-Hellman (RFC 7748).

use vstd::prelude::*;
use zeroize::Zeroizing;

use crate::crypto::secret::{constant_time_eq, key_bytes_held, KeyBytes};
use crate::crypto::SecretKey;

verus! {

/// Length of a [`PublicKey`] in bytes.
pub const PUBLIC_KEY_LEN: usize = 32;

const BASEPOINT: [u8; PUBLIC_KEY_LEN] = [
    9, 0, 0, 0, 0, 0, 0, 0, 0, 0, 0, 0, 0, 0, 0, 0, 0, 0, 0, 0, 0, 0, 0, 0, 0, 0, 0, 0, 0, 0, 0, 0,
];

/// The X25519 function of RFC 7748: the u-coordinate of the clamped scalar
/// `scalar` times the point with u-coordinate `u`.
pub uninterp spec fn x25519_function(scalar: Seq<u8>, u: Seq<u8>) -> Seq<u8>;

/// The u-coordinate of the base point, 9.
pub open spec fn x25519_basepoint() -> Seq<u8> {
    seq![9u8] + Seq::new(31, |i: int| 0u8)
}

/// The public key of a private scalar.
pub open spec fn x25519_public(scalar: Seq<u8>) -> Seq<u8> {
    x25519_function(scalar, x25519_basepoint())
}

/// Diffie-Hellman agreement: when `u` is the public key of `other`, the
/// result of `scalar` on `u` is that of `other` on the public key of `scalar`.
pub open spec fn dh_agrees(scalar: Seq<u8>, u: Seq<u8>, shared: Seq<u8>) -> bool {
    forall|other: Seq<u8>|
        #![trigger x25519_public(other)]
        other.len() == 32 && u == x25519_public(other) ==> shared == x25519_function(
            other,
            x25519_public(scalar),
        )
}

/// The u-coordinate zero, with or without the top bit that decoding drops:
/// the point of order two, which every scalar sends to zero.
pub open spec fn x25519_zero_point(u: Seq<u8>) -> bool {
    &&& u.len() == 32
    &&& forall|i: int| 0 <= i < 31 ==> u[i] == 0
    &&& (u[31] == 0 || u[31] == 0x80)
}

/// `x25519_dalek::x25519`, its output moved into a wiping buffer. Claims the
/// buffer holds the 32 bytes of the named X25519 function, and the agreement
/// that RFC 7748 section 6.1 and the crate's documentation show: both sides
/// of an exchange compute the same value. Claims too that the zero point
/// gives all-zero output (RFC 7748 section 6.1): `MontgomeryPoint::mul_clamped`
/// decodes the u-coordinate without its top bit, and its ladder started from
/// u = 0 ends in a projective point with a zero coordinate, which encodes as
/// zero. Claims last that the output on a public key, the output of the
/// function on the base point, is never zero: a clamped scalar is a multiple
/// of 8 between 2^254 and 2^255, never a multiple of the prime group order,
/// so such a key is a point of that prime order and its multiples by another
/// clamped scalar are never the identity, whose u-coordinate alone is zero.
#[verifier::external_body]
fn x25519(scalar: &[u8; 32], u: &[u8; 32]) -> (shared: KeyBytes)
    ensures
        key_bytes_held(shared) == x25519_function(scalar@, u@),
        dh_agrees(scalar@, u@, key_bytes_held(shared)),
        x25519_zero_point(u@) ==> key_bytes_held(shared) == Seq::new(32, |i: int| 0u8),
        (exists|other: Seq<u8>| other.len() == 32 && #[trigger] x25519_public(other) == u@)
            ==> key_bytes_held(shared) != Seq::new(32, |i: int| 0u8),
{
    KeyBytes { inner: Zeroizing::new(x25519_dalek::x25519(*scalar, *u)) }
}

/// An X25519 private scalar, wiped on drop.
pub struct PrivateKey(SecretKey);

impl View for PrivateKey {
    type V = Seq<u8>;

    closed spec fn view(&self) -> Seq<u8> {
        self.0@
    }
}

/// The shared secret `diffie_hellman` gives: refused when all zero, which is
/// what a low-order peer point forces.
pub open spec fn dh_result_ok(scalar: Seq<u8>, peer: Seq<u8>) -> bool {
    x25519_function(scalar, peer) != Seq::new(32, |i: int| 0u8)
}

impl PrivateKey {
    /// Draws a fresh private key from the operating system RNG.
    ///
    /// # Errors
    /// [`crate::crypto::Error::Rng`] if the RNG fails.
    pub fn generate() -> (result: Result<Self, crate::crypto::Error>)
        ensures
            result is Err ==> result == Err::<Self, crate::crypto::Error>(
                crate::crypto::Error::Rng,
            ),
            result matches Ok(key) ==> key@.len() == 32,
    {
        match SecretKey::random() {
            Ok(key) => Ok(PrivateKey(key)),
            Err(error) => Err(error),
        }
    }

    /// The public key matching this private key.
    pub fn public_key(&self) -> (public: PublicKey)
        ensures
            public@ == x25519_public(self@),
    {
        let shared = x25519(self.0.expose_secret(), &BASEPOINT);
        assert(BASEPOINT@ =~= x25519_basepoint());
        PublicKey(*shared.bytes())
    }

    /// The shared secret with `peer`.
    ///
    /// # Errors
    /// [`crate::crypto::Error::InvalidPublicKey`] if `peer` is a low-order
    /// point, which would make the shared secret all zero whatever this
    /// private key is.
    pub fn diffie_hellman(&self, peer: &PublicKey) -> (result: Result<
        SecretKey,
        crate::crypto::Error,
    >)
        ensures
            result is Ok <==> dh_result_ok(self@, peer@),
            result is Err ==> result == Err::<SecretKey, crate::crypto::Error>(
                crate::crypto::Error::InvalidPublicKey,
            ),
            x25519_zero_point(peer@) ==> result is Err,
            (exists|other: Seq<u8>| other.len() == 32 && #[trigger] x25519_public(other) == peer@)
                ==> result is Ok,
            result matches Ok(shared) ==> shared@ == x25519_function(self@, peer@) && dh_agrees(
                self@,
                peer@,
                shared@,
            ),
    {
        let shared = x25519(self.0.expose_secret(), &peer.0);
        let zero = [0u8; PUBLIC_KEY_LEN];
        if constant_time_eq(shared.bytes().as_slice(), zero.as_slice()) {
            assert(zero@ =~= Seq::new(32, |i: int| 0u8));
            return Err(crate::crypto::Error::InvalidPublicKey);
        }
        assert(zero@ =~= Seq::new(32, |i: int| 0u8));
        Ok(SecretKey::from_key_bytes(shared))
    }
}

impl From<SecretKey> for PrivateKey {
    fn from(key: SecretKey) -> (private: Self)
        ensures
            private@ == key@,
    {
        PrivateKey(key)
    }
}

impl vstd::std_specs::convert::FromSpecImpl<SecretKey> for PrivateKey {
    open spec fn obeys_from_spec() -> bool {
        true
    }

    closed spec fn from_spec(key: SecretKey) -> PrivateKey {
        PrivateKey(key)
    }
}

/// An X25519 public key: the Montgomery u-coordinate, as sent on the wire.
#[derive(Debug, Clone, Copy, PartialEq, Eq)]
pub struct PublicKey([u8; PUBLIC_KEY_LEN]);

impl View for PublicKey {
    type V = Seq<u8>;

    closed spec fn view(&self) -> Seq<u8> {
        self.0@
    }
}

impl PublicKey {
    /// A public key received from a peer. Every 32-byte string is a valid
    /// encoding; low-order points are refused by
    /// [`PrivateKey::diffie_hellman`].
    pub fn from_bytes(bytes: [u8; PUBLIC_KEY_LEN]) -> (public: Self)
        ensures
            public@ == bytes@,
    {
        PublicKey(bytes)
    }

    /// The public key bytes, for sending.
    pub fn as_bytes(&self) -> (bytes: &[u8; PUBLIC_KEY_LEN])
        ensures
            bytes@ == self@,
    {
        &self.0
    }

    /// Whether two public keys are the same bytes.
    pub(crate) fn same_as(&self, other: &PublicKey) -> (same: bool)
        ensures
            same == (self@ == other@),
    {
        let mut i: usize = 0;
        while i < PUBLIC_KEY_LEN
            invariant
                i <= PUBLIC_KEY_LEN,
                forall|j: int| 0 <= j < i ==> self.0@[j] == other.0@[j],
            decreases PUBLIC_KEY_LEN - i,
        {
            if self.0[i] != other.0[i] {
                return false;
            }
            i = i + 1;
        }
        assert(self.0@ =~= other.0@);
        true
    }
}

/// Two parties that each hold a private key and the other's public key
/// compute the same shared secret.
pub proof fn lemma_dh_agreement(alice: Seq<u8>, bob: Seq<u8>, alice_shared: Seq<u8>)
    requires
        alice.len() == 32,
        bob.len() == 32,
        dh_agrees(alice, x25519_public(bob), alice_shared),
    ensures
        alice_shared == x25519_function(bob, x25519_public(alice)),
{
}

} // verus!
