//! Session establishment: hybrid post-quantum X3DH.
//!
//! Verifying the signature over a [`PrekeyBundle`] belongs to contact
//! establishment and happens before a bundle reaches this module.

use vstd::prelude::*;

use crate::crypto::ed25519::VerifyingKey;
use crate::crypto::hash::{self, blake3_derive_key};
use crate::crypto::kdf::{hkdf_sha512, hkdf_sha512_okm};
use crate::crypto::mlkem::{
    ml_kem_768_decapsulation, ml_kem_768_encapsulation, Ciphertext, DecapsulationKey,
    EncapsulationKey,
};
use crate::crypto::x25519::{
    dh_agrees, dh_result_ok, x25519_function, x25519_public, x25519_zero_point, PrivateKey,
    PublicKey,
};
use crate::crypto::{Error, SecretBuffer, SecretKey};
use crate::wire::extend;

verus! {

/// Length of the shared key `SK` in bytes.
pub const SHARED_KEY_LEN: usize = 32;

/// The BLAKE3 key-derivation context the transcript is hashed under.
pub const TRANSCRIPT_CONTEXT: &'static str = "QUIETWIRE-X3DH-TRANSCRIPT-v1";

/// The HKDF info of the shared key: `QUIETWIRE-X3DH-HYBRID-v1`.
pub const HYBRID_INFO: [u8; 24] = [
    0x51, 0x55, 0x49, 0x45, 0x54, 0x57, 0x49, 0x52, 0x45, 0x2d, 0x58, 0x33, 0x44, 0x48, 0x2d, 0x48,
    0x59, 0x42, 0x52, 0x49, 0x44, 0x2d, 0x76, 0x31,
];

/// The three public identity keys of a party.
#[derive(Debug, Clone, Copy, PartialEq, Eq)]
pub struct IdentityPublic {
    /// `IK_sign_pub`.
    pub sign: VerifyingKey,
    /// `IK_dh_pub`.
    pub dh: PublicKey,
    /// `PQ_kem_pub`.
    pub kem: EncapsulationKey,
}

/// The responder keys an initiator needs, as published in a contact QR code.
#[derive(Debug, Clone, Copy, PartialEq, Eq)]
pub struct PrekeyBundle {
    /// The responder's identity.
    pub identity: IdentityPublic,
    /// `SPK_pub`.
    pub signed_prekey: PublicKey,
    /// `OPK_pub`, when one was left.
    pub one_time_prekey: Option<PublicKey>,
}

/// What the initiator sends so that the responder can derive the same key.
#[derive(Debug, Clone, Copy, PartialEq, Eq)]
pub struct InitialMessage {
    /// `EK_pub`.
    pub ephemeral: PublicKey,
    /// `CT_pq`.
    pub kem_ciphertext: Ciphertext,
}

/// An identity as it enters the transcript: signing key, DH key, KEM key.
pub open spec fn identity_bytes(identity: IdentityPublic) -> Seq<u8> {
    identity.sign@ + identity.dh@ + identity.kem@
}

/// The bytes of a one-time prekey in the transcript: none when absent.
pub open spec fn optional_key_bytes(key: Option<PublicKey>) -> Seq<u8> {
    match key {
        Some(key) => key@,
        None => Seq::empty(),
    }
}

/// The public one-time prekey of an optional private one, as transcript bytes.
pub open spec fn optional_public_bytes(scalar: Option<Seq<u8>>) -> Seq<u8> {
    match scalar {
        Some(scalar) => x25519_public(scalar),
        None => Seq::empty(),
    }
}

/// The transcript both parties bind the shared key to: both identities, the
/// ephemeral key, the prekeys and the KEM ciphertext, hashed under
/// [`TRANSCRIPT_CONTEXT`].
pub open spec fn transcript_of(
    initiator: IdentityPublic,
    responder: IdentityPublic,
    ephemeral: Seq<u8>,
    signed_prekey: Seq<u8>,
    one_time_prekey: Seq<u8>,
    kem_ciphertext: Seq<u8>,
) -> Seq<u8> {
    blake3_derive_key(
        TRANSCRIPT_CONTEXT@,
        identity_bytes(initiator) + identity_bytes(responder) + ephemeral + signed_prekey
            + one_time_prekey + kem_ciphertext,
    )
}

/// The transcript as the initiator sees it, from the bundle and its message.
pub open spec fn initiator_transcript(
    initiator: IdentityPublic,
    bundle: PrekeyBundle,
    message: InitialMessage,
) -> Seq<u8> {
    transcript_of(
        initiator,
        bundle.identity,
        message.ephemeral@,
        bundle.signed_prekey@,
        optional_key_bytes(bundle.one_time_prekey),
        message.kem_ciphertext@,
    )
}

/// The transcript as the responder sees it, from its own private prekeys.
pub open spec fn responder_transcript(
    initiator: IdentityPublic,
    responder: IdentityPublic,
    signed_prekey: Seq<u8>,
    one_time_prekey: Option<Seq<u8>>,
    message: InitialMessage,
) -> Seq<u8> {
    transcript_of(
        initiator,
        responder,
        message.ephemeral@,
        x25519_public(signed_prekey),
        optional_public_bytes(one_time_prekey),
        message.kem_ciphertext@,
    )
}

/// Byte strings laid end to end, in order.
pub open spec fn joined(parts: Seq<Seq<u8>>) -> Seq<u8>
    decreases parts.len(),
{
    if parts.len() == 0 {
        Seq::empty()
    } else {
        joined(parts.drop_last()) + parts.last()
    }
}

/// The HKDF input keying material: 32 `0xFF` bytes, then every secret.
pub open spec fn hybrid_ikm(secrets: Seq<Seq<u8>>) -> Seq<u8> {
    Seq::new(32, |i: int| 0xFFu8) + joined(secrets)
}

/// `SK`: HKDF-SHA512 of the secrets, salted with the transcript.
pub open spec fn shared_key_of(secrets: Seq<Seq<u8>>, transcript: Seq<u8>) -> Seq<u8> {
    hkdf_sha512_okm(hybrid_ikm(secrets), transcript, HYBRID_INFO@, SHARED_KEY_LEN as nat)
}

/// The bytes of each key, in order.
pub open spec fn key_views(keys: Seq<SecretKey>) -> Seq<Seq<u8>> {
    keys.map_values(|key: SecretKey| key@)
}

/// `DH1..DH4` then `SS_pq`, as the initiator computes them.
pub open spec fn initiator_secrets(
    identity_dh: Seq<u8>,
    ephemeral: Seq<u8>,
    bundle: PrekeyBundle,
    kem_shared: Seq<u8>,
) -> Seq<Seq<u8>> {
    let classical = seq![
        x25519_function(identity_dh, bundle.signed_prekey@),
        x25519_function(ephemeral, bundle.identity.dh@),
        x25519_function(ephemeral, bundle.signed_prekey@),
    ];
    match bundle.one_time_prekey {
        Some(key) => classical.push(x25519_function(ephemeral, key@)).push(kem_shared),
        None => classical.push(kem_shared),
    }
}

/// Whether none of the initiator's exchanges hits a low-order point.
pub open spec fn initiator_accepts(identity_dh: Seq<u8>, ephemeral: Seq<u8>, bundle: PrekeyBundle) -> bool {
    &&& dh_result_ok(identity_dh, bundle.signed_prekey@)
    &&& dh_result_ok(ephemeral, bundle.identity.dh@)
    &&& dh_result_ok(ephemeral, bundle.signed_prekey@)
    &&& (bundle.one_time_prekey matches Some(key) ==> dh_result_ok(ephemeral, key@))
}

/// What each X25519 exchange of the initiator states of its result.
pub open spec fn initiator_exchanges_agree(
    identity_dh: Seq<u8>,
    ephemeral: Seq<u8>,
    bundle: PrekeyBundle,
) -> bool {
    &&& dh_agrees(
        identity_dh,
        bundle.signed_prekey@,
        x25519_function(identity_dh, bundle.signed_prekey@),
    )
    &&& dh_agrees(ephemeral, bundle.identity.dh@, x25519_function(ephemeral, bundle.identity.dh@))
    &&& dh_agrees(ephemeral, bundle.signed_prekey@, x25519_function(ephemeral, bundle.signed_prekey@))
    &&& (bundle.one_time_prekey matches Some(key) ==> dh_agrees(
        ephemeral,
        key@,
        x25519_function(ephemeral, key@),
    ))
}

/// `DH1..DH4` then `SS_pq`, as the responder computes them.
pub open spec fn responder_secrets(
    identity_dh: Seq<u8>,
    signed_prekey: Seq<u8>,
    one_time_prekey: Option<Seq<u8>>,
    kem_shared: Seq<u8>,
    initiator: IdentityPublic,
    message: InitialMessage,
) -> Seq<Seq<u8>> {
    let classical = seq![
        x25519_function(signed_prekey, initiator.dh@),
        x25519_function(identity_dh, message.ephemeral@),
        x25519_function(signed_prekey, message.ephemeral@),
    ];
    match one_time_prekey {
        Some(scalar) => classical.push(x25519_function(scalar, message.ephemeral@)).push(kem_shared),
        None => classical.push(kem_shared),
    }
}

/// Whether none of the responder's exchanges hits a low-order point.
pub open spec fn responder_accepts(
    identity_dh: Seq<u8>,
    signed_prekey: Seq<u8>,
    one_time_prekey: Option<Seq<u8>>,
    initiator: IdentityPublic,
    message: InitialMessage,
) -> bool {
    &&& dh_result_ok(signed_prekey, initiator.dh@)
    &&& dh_result_ok(identity_dh, message.ephemeral@)
    &&& dh_result_ok(signed_prekey, message.ephemeral@)
    &&& (one_time_prekey matches Some(scalar) ==> dh_result_ok(scalar, message.ephemeral@))
}

/// Whether a bundle's one-time prekey is the public key of the responder's
/// private one, both present or both absent.
pub open spec fn offers_one_time_prekey(key: Option<PublicKey>, scalar: Option<Seq<u8>>) -> bool {
    match (key, scalar) {
        (Some(key), Some(scalar)) => key@ == x25519_public(scalar),
        (None, None) => true,
        _ => false,
    }
}

impl IdentityPublic {
    fn to_bytes(&self) -> (bytes: Vec<u8>)
        ensures
            bytes@ == identity_bytes(*self),
    {
        let mut bytes: Vec<u8> = Vec::new();
        let sign = self.sign.to_bytes();
        extend(&mut bytes, sign.as_slice());
        extend(&mut bytes, self.dh.as_bytes().as_slice());
        let kem = self.kem.to_bytes();
        extend(&mut bytes, kem.as_slice());
        bytes
    }
}

/// The party that starts a session from a [`PrekeyBundle`].
pub struct Initiator<'a> {
    /// Its public identity.
    pub identity: &'a IdentityPublic,
    /// `IK_dh_priv`.
    pub identity_dh: &'a PrivateKey,
}

impl Initiator<'_> {
    /// Derives `SK` with a fresh ephemeral key, which is wiped on return, and
    /// the message the responder needs to derive it too.
    ///
    /// # Errors
    /// [`Error::InvalidPublicKey`] if a bundle key is a low-order point, and
    /// [`Error::Rng`] if the RNG fails.
    pub fn initiate(&self, bundle: &PrekeyBundle) -> (result: Result<(SecretKey, InitialMessage), Error>)
        ensures
            result is Err ==> result == Err::<(SecretKey, InitialMessage), Error>(Error::Rng)
                || result == Err::<(SecretKey, InitialMessage), Error>(Error::InvalidPublicKey),
            x25519_zero_point(bundle.signed_prekey@) || (bundle.one_time_prekey matches Some(
                key,
            ) && x25519_zero_point(key@)) ==> result is Err,
            result matches Err(Error::InvalidPublicKey) ==> exists|ephemeral: Seq<u8>|
                ephemeral.len() == 32 && !#[trigger] initiator_accepts(
                    self.identity_dh@,
                    ephemeral,
                    *bundle,
                ),
            result matches Ok((key, message)) ==> exists|ephemeral: Seq<u8>, m: Seq<u8>|
                #![trigger x25519_public(ephemeral), ml_kem_768_encapsulation(bundle.identity.kem@, m)]
                ephemeral.len() == 32 && m.len() == 32
                    && message.ephemeral@ == x25519_public(ephemeral)
                    && message.kem_ciphertext@ == ml_kem_768_encapsulation(bundle.identity.kem@, m).0
                    && initiator_accepts(self.identity_dh@, ephemeral, *bundle)
                    && initiator_exchanges_agree(self.identity_dh@, ephemeral, *bundle)
                    && key@ == shared_key_of(
                    initiator_secrets(
                        self.identity_dh@,
                        ephemeral,
                        *bundle,
                        ml_kem_768_encapsulation(bundle.identity.kem@, m).1,
                    ),
                    initiator_transcript(*self.identity, *bundle, message),
                ),
    {
        let ephemeral = match PrivateKey::generate() {
            Ok(key) => key,
            Err(error) => return Err(error),
        };
        let encapsulation = match bundle.identity.kem.encapsulate() {
            Ok(pair) => pair,
            Err(error) => return Err(error),
        };
        let ghost m = choose|m: Seq<u8>|
            m.len() == 32 && encapsulation.0@ == #[trigger] ml_kem_768_encapsulation(
                bundle.identity.kem@,
                m,
            ).0 && encapsulation.1@ == ml_kem_768_encapsulation(bundle.identity.kem@, m).1;
        let ghost e = ephemeral@;
        let result = self.initiate_with(bundle, &ephemeral, encapsulation);
        proof {
            if result is Ok {
                let message = result->Ok_0.1;
                assert(message.ephemeral@ == x25519_public(e));
                assert(ml_kem_768_encapsulation(bundle.identity.kem@, m).0 == message.kem_ciphertext@);
            }
        }
        result
    }

    /// `SK` and the initial message for a given ephemeral key and a given KEM
    /// encapsulation to the bundle's identity.
    ///
    /// # Errors
    /// [`Error::InvalidPublicKey`] if a bundle key is a low-order point.
    pub fn initiate_with(
        &self,
        bundle: &PrekeyBundle,
        ephemeral: &PrivateKey,
        encapsulation: (Ciphertext, SecretKey),
    ) -> (result: Result<(SecretKey, InitialMessage), Error>)
        ensures
            result is Ok <==> initiator_accepts(self.identity_dh@, ephemeral@, *bundle),
            x25519_zero_point(bundle.signed_prekey@) || (bundle.one_time_prekey matches Some(
                key,
            ) && x25519_zero_point(key@)) ==> result is Err,
            result is Err ==> result == Err::<(SecretKey, InitialMessage), Error>(
                Error::InvalidPublicKey,
            ),
            result matches Ok((key, message)) ==> {
                &&& message.ephemeral@ == x25519_public(ephemeral@)
                &&& message.kem_ciphertext == encapsulation.0
                &&& initiator_exchanges_agree(self.identity_dh@, ephemeral@, *bundle)
                &&& key@ == shared_key_of(
                    initiator_secrets(self.identity_dh@, ephemeral@, *bundle, encapsulation.1@),
                    initiator_transcript(*self.identity, *bundle, message),
                )
            },
    {
        let (kem_ciphertext, kem_shared) = encapsulation;
        let message = InitialMessage { ephemeral: ephemeral.public_key(), kem_ciphertext };
        let first = match self.identity_dh.diffie_hellman(&bundle.signed_prekey) {
            Ok(shared) => shared,
            Err(error) => return Err(error),
        };
        let second = match ephemeral.diffie_hellman(&bundle.identity.dh) {
            Ok(shared) => shared,
            Err(error) => return Err(error),
        };
        let third = match ephemeral.diffie_hellman(&bundle.signed_prekey) {
            Ok(shared) => shared,
            Err(error) => return Err(error),
        };
        let mut secrets: Vec<SecretKey> = Vec::new();
        secrets.push(first);
        secrets.push(second);
        secrets.push(third);
        match &bundle.one_time_prekey {
            Some(one_time_prekey) => {
                let fourth = match ephemeral.diffie_hellman(one_time_prekey) {
                    Ok(shared) => shared,
                    Err(error) => return Err(error),
                };
                secrets.push(fourth);
            },
            None => {},
        }
        secrets.push(kem_shared);
        proof {
            assert(key_views(secrets@) =~= initiator_secrets(
                self.identity_dh@,
                ephemeral@,
                *bundle,
                encapsulation.1@,
            ));
        }
        let transcript = transcript(self.identity, bundle, &message);
        match derive_shared_key(&secrets, &transcript) {
            Ok(key) => Ok((key, message)),
            Err(error) => Err(error),
        }
    }
}

/// The party whose [`PrekeyBundle`] a session is started from.
pub struct Responder<'a> {
    /// Its public identity.
    pub identity: &'a IdentityPublic,
    /// `IK_dh_priv`.
    pub identity_dh: &'a PrivateKey,
    /// `PQ_kem_priv`.
    pub kem: &'a DecapsulationKey,
    /// `SPK_priv`.
    pub signed_prekey: &'a PrivateKey,
    /// `OPK_priv`, when the initiator used one.
    pub one_time_prekey: Option<&'a PrivateKey>,
}

impl Responder<'_> {
    /// The private one-time prekey, when there is one.
    pub open spec fn one_time_scalar(&self) -> Option<Seq<u8>> {
        match self.one_time_prekey {
            Some(key) => Some(key@),
            None => None,
        }
    }

    /// The bundle these keys answer to.
    pub fn bundle(&self) -> (bundle: PrekeyBundle)
        ensures
            bundle.identity == *self.identity,
            bundle.signed_prekey@ == x25519_public(self.signed_prekey@),
            offers_one_time_prekey(bundle.one_time_prekey, self.one_time_scalar()),
    {
        let one_time_prekey = match self.one_time_prekey {
            Some(key) => Some(key.public_key()),
            None => None,
        };
        PrekeyBundle {
            identity: *self.identity,
            signed_prekey: self.signed_prekey.public_key(),
            one_time_prekey,
        }
    }

    /// Derives the `SK` that `initiator` derived when it sent `message`.
    ///
    /// # Errors
    /// [`Error::InvalidPublicKey`] if an initiator key is a low-order point.
    pub fn respond(&self, initiator: &IdentityPublic, message: &InitialMessage) -> (result: Result<
        SecretKey,
        Error,
    >)
        ensures
            result is Ok <==> responder_accepts(
                self.identity_dh@,
                self.signed_prekey@,
                self.one_time_scalar(),
                *initiator,
                *message,
            ),
            result is Err ==> result == Err::<SecretKey, Error>(Error::InvalidPublicKey),
            x25519_zero_point(initiator.dh@) || x25519_zero_point(message.ephemeral@) ==> result is Err,
            result matches Ok(key) ==> key@ == shared_key_of(
                responder_secrets(
                    self.identity_dh@,
                    self.signed_prekey@,
                    self.one_time_scalar(),
                    ml_kem_768_decapsulation(
                        self.kem.seed_d(),
                        self.kem.seed_z(),
                        message.kem_ciphertext@,
                    ),
                    *initiator,
                    *message,
                ),
                responder_transcript(
                    *initiator,
                    *self.identity,
                    self.signed_prekey@,
                    self.one_time_scalar(),
                    *message,
                ),
            ),
    {
        let first = match self.signed_prekey.diffie_hellman(&initiator.dh) {
            Ok(shared) => shared,
            Err(error) => return Err(error),
        };
        let second = match self.identity_dh.diffie_hellman(&message.ephemeral) {
            Ok(shared) => shared,
            Err(error) => return Err(error),
        };
        let third = match self.signed_prekey.diffie_hellman(&message.ephemeral) {
            Ok(shared) => shared,
            Err(error) => return Err(error),
        };
        let mut secrets: Vec<SecretKey> = Vec::new();
        secrets.push(first);
        secrets.push(second);
        secrets.push(third);
        match self.one_time_prekey {
            Some(one_time_prekey) => {
                let fourth = match one_time_prekey.diffie_hellman(&message.ephemeral) {
                    Ok(shared) => shared,
                    Err(error) => return Err(error),
                };
                secrets.push(fourth);
            },
            None => {},
        }
        let kem_shared = self.kem.decapsulate(&message.kem_ciphertext);
        secrets.push(kem_shared);
        proof {
            assert(key_views(secrets@) =~= responder_secrets(
                self.identity_dh@,
                self.signed_prekey@,
                self.one_time_scalar(),
                ml_kem_768_decapsulation(self.kem.seed_d(), self.kem.seed_z(), message.kem_ciphertext@),
                *initiator,
                *message,
            ));
        }
        let bundle = self.bundle();
        let transcript = transcript(initiator, &bundle, message);
        proof {
            assert(optional_key_bytes(bundle.one_time_prekey) == optional_public_bytes(
                self.one_time_scalar(),
            ));
        }
        derive_shared_key(&secrets, &transcript)
    }
}

fn transcript(initiator: &IdentityPublic, bundle: &PrekeyBundle, message: &InitialMessage) -> (key: SecretKey)
    ensures
        key@ == initiator_transcript(*initiator, *bundle, *message),
{
    let mut bytes = initiator.to_bytes();
    let responder = bundle.identity.to_bytes();
    extend(&mut bytes, responder.as_slice());
    extend(&mut bytes, message.ephemeral.as_bytes().as_slice());
    extend(&mut bytes, bundle.signed_prekey.as_bytes().as_slice());
    match &bundle.one_time_prekey {
        Some(one_time_prekey) => extend(&mut bytes, one_time_prekey.as_bytes().as_slice()),
        None => {},
    }
    extend(&mut bytes, message.kem_ciphertext.as_bytes().as_slice());
    assert(bytes@ =~= identity_bytes(*initiator) + identity_bytes(bundle.identity)
        + message.ephemeral@ + bundle.signed_prekey@ + optional_key_bytes(bundle.one_time_prekey)
        + message.kem_ciphertext@);
    hash::derive_key(TRANSCRIPT_CONTEXT, bytes.as_slice())
}

/// `secrets` are `DH1..DH4` followed by `SS_pq`.
fn derive_shared_key(secrets: &Vec<SecretKey>, transcript: &SecretKey) -> (result: Result<SecretKey, Error>)
    ensures
        result matches Ok(key) && key@ == shared_key_of(key_views(secrets@), transcript@),
{
    let ghost parts = key_views(secrets@);
    let prefix = [0xFFu8; 32];
    let mut ikm: Vec<u8> = Vec::new();
    extend(&mut ikm, prefix.as_slice());
    let mut i: usize = 0;
    while i < secrets.len()
        invariant
            i <= secrets@.len(),
            parts == key_views(secrets@),
            prefix@ == Seq::new(32, |j: int| 0xFFu8),
            ikm@ == prefix@ + joined(parts.take(i as int)),
        decreases secrets@.len() - i,
    {
        extend(&mut ikm, secrets[i].expose_secret().as_slice());
        proof {
            assert(parts.take(i + 1).drop_last() =~= parts.take(i as int));
            assert(ikm@ =~= prefix@ + joined(parts.take(i + 1)));
        }
        i = i + 1;
    }
    proof {
        assert(parts.take(i as int) =~= parts);
        assert(prefix@ =~= Seq::new(32, |j: int| 0xFFu8));
    }
    let ikm = SecretBuffer::wrap(ikm);
    let okm = match hkdf_sha512(
        ikm.as_slice(),
        transcript.expose_secret().as_slice(),
        HYBRID_INFO.as_slice(),
        SHARED_KEY_LEN,
    ) {
        Ok(okm) => okm,
        Err(error) => return Err(error),
    };
    SecretKey::from_slice(okm.as_slice())
}

/// Both parties derive the same `SK`: when the keys the initiator used are
/// the public halves of the responder's private keys, the message carries the
/// initiator's ephemeral key, and the responder's decapsulation gives back the
/// KEM secret the initiator encapsulated.
pub proof fn lemma_x3dh_agreement(
    initiator: IdentityPublic,
    initiator_dh: Seq<u8>,
    ephemeral: Seq<u8>,
    bundle: PrekeyBundle,
    message: InitialMessage,
    kem_shared: Seq<u8>,
    responder_dh: Seq<u8>,
    signed_prekey: Seq<u8>,
    one_time_prekey: Option<Seq<u8>>,
)
    requires
        initiator_dh.len() == 32,
        ephemeral.len() == 32,
        responder_dh.len() == 32,
        signed_prekey.len() == 32,
        one_time_prekey matches Some(scalar) ==> scalar.len() == 32,
        initiator.dh@ == x25519_public(initiator_dh),
        message.ephemeral@ == x25519_public(ephemeral),
        bundle.identity.dh@ == x25519_public(responder_dh),
        bundle.signed_prekey@ == x25519_public(signed_prekey),
        offers_one_time_prekey(bundle.one_time_prekey, one_time_prekey),
        initiator_exchanges_agree(initiator_dh, ephemeral, bundle),
    ensures
        initiator_secrets(initiator_dh, ephemeral, bundle, kem_shared) == responder_secrets(
            responder_dh,
            signed_prekey,
            one_time_prekey,
            kem_shared,
            initiator,
            message,
        ),
        initiator_transcript(initiator, bundle, message) == responder_transcript(
            initiator,
            bundle.identity,
            signed_prekey,
            one_time_prekey,
            message,
        ),
        shared_key_of(
            initiator_secrets(initiator_dh, ephemeral, bundle, kem_shared),
            initiator_transcript(initiator, bundle, message),
        ) == shared_key_of(
            responder_secrets(
                responder_dh,
                signed_prekey,
                one_time_prekey,
                kem_shared,
                initiator,
                message,
            ),
            responder_transcript(initiator, bundle.identity, signed_prekey, one_time_prekey, message),
        ),
{
    let d1 = x25519_function(initiator_dh, bundle.signed_prekey@);
    assert(d1 == x25519_function(signed_prekey, x25519_public(initiator_dh)));
    let d2 = x25519_function(ephemeral, bundle.identity.dh@);
    assert(d2 == x25519_function(responder_dh, x25519_public(ephemeral)));
    let d3 = x25519_function(ephemeral, bundle.signed_prekey@);
    assert(d3 == x25519_function(signed_prekey, x25519_public(ephemeral)));
    match (bundle.one_time_prekey, one_time_prekey) {
        (Some(key), Some(scalar)) => {
            let d4 = x25519_function(ephemeral, key@);
            assert(d4 == x25519_function(scalar, x25519_public(ephemeral)));
        },
        _ => {},
    }
    assert(initiator_secrets(initiator_dh, ephemeral, bundle, kem_shared) =~= responder_secrets(
        responder_dh,
        signed_prekey,
        one_time_prekey,
        kem_shared,
        initiator,
        message,
    ));
    assert(optional_key_bytes(bundle.one_time_prekey) == optional_public_bytes(one_time_prekey));
}

/// The HKDF info of `SK`, byte by byte: `QUIETWIRE-X3DH-HYBRID-v1`.
pub open spec fn hybrid_info_bytes() -> Seq<u8> {
    seq![
        0x51u8, 0x55, 0x49, 0x45, 0x54, 0x57, 0x49, 0x52, 0x45, 0x2d, 0x58, 0x33, 0x44, 0x48, 0x2d,
        0x48, 0x59, 0x42, 0x52, 0x49, 0x44, 0x2d, 0x76, 0x31,
    ]
}

/// `SK` as a function of its parts: HKDF-SHA512, salted with the transcript,
/// under `QUIETWIRE-X3DH-HYBRID-v1`, 32 bytes, of 32 `0xFF` bytes followed by
/// DH1, DH2, DH3, DH4 (empty when there is no one-time prekey), and last the
/// ML-KEM shared secret.
pub open spec fn hybrid_key(
    dh1: Seq<u8>,
    dh2: Seq<u8>,
    dh3: Seq<u8>,
    dh4: Seq<u8>,
    kem_shared: Seq<u8>,
    transcript: Seq<u8>,
) -> Seq<u8> {
    hkdf_sha512_okm(
        Seq::new(32, |i: int| 0xFFu8) + dh1 + dh2 + dh3 + dh4 + kem_shared,
        transcript,
        hybrid_info_bytes(),
        32,
    )
}

/// The initiator's `SK` mixes in, in order, X25519 of its identity key and
/// the signed prekey, of its ephemeral key and the responder's identity key,
/// of its ephemeral key and the signed prekey, of its ephemeral key and the
/// one-time prekey when the bundle has one, and last the ML-KEM secret it
/// encapsulated.
pub proof fn lemma_initiator_key_is_hybrid_hkdf(
    identity_dh: Seq<u8>,
    ephemeral: Seq<u8>,
    bundle: PrekeyBundle,
    kem_shared: Seq<u8>,
    transcript: Seq<u8>,
)
    ensures
        bundle.one_time_prekey matches Some(key) ==> shared_key_of(
            initiator_secrets(identity_dh, ephemeral, bundle, kem_shared),
            transcript,
        ) == hybrid_key(
            x25519_function(identity_dh, bundle.signed_prekey@),
            x25519_function(ephemeral, bundle.identity.dh@),
            x25519_function(ephemeral, bundle.signed_prekey@),
            x25519_function(ephemeral, key@),
            kem_shared,
            transcript,
        ),
        bundle.one_time_prekey is None ==> shared_key_of(
            initiator_secrets(identity_dh, ephemeral, bundle, kem_shared),
            transcript,
        ) == hybrid_key(
            x25519_function(identity_dh, bundle.signed_prekey@),
            x25519_function(ephemeral, bundle.identity.dh@),
            x25519_function(ephemeral, bundle.signed_prekey@),
            Seq::empty(),
            kem_shared,
            transcript,
        ),
{
    let secrets = initiator_secrets(identity_dh, ephemeral, bundle, kem_shared);
    lemma_joined_parts(secrets);
    assert(HYBRID_INFO@ =~= hybrid_info_bytes());
    let d1 = x25519_function(identity_dh, bundle.signed_prekey@);
    let d2 = x25519_function(ephemeral, bundle.identity.dh@);
    let d3 = x25519_function(ephemeral, bundle.signed_prekey@);
    match bundle.one_time_prekey {
        Some(key) => {
            let d4 = x25519_function(ephemeral, key@);
            assert(joined(secrets) =~= d1 + d2 + d3 + d4 + kem_shared);
            assert(hybrid_ikm(secrets) =~= Seq::new(32, |i: int| 0xFFu8) + d1 + d2 + d3 + d4
                + kem_shared);
            assert(shared_key_of(secrets, transcript) == hkdf_sha512_okm(
                Seq::new(32, |i: int| 0xFFu8) + d1 + d2 + d3 + d4 + kem_shared,
                transcript,
                hybrid_info_bytes(),
                32,
            ));
        },
        None => {
            assert(joined(secrets) =~= d1 + d2 + d3 + Seq::<u8>::empty() + kem_shared);
            assert(hybrid_ikm(secrets) =~= Seq::new(32, |i: int| 0xFFu8) + d1 + d2 + d3
                + Seq::<u8>::empty() + kem_shared);
        },
    }
}

/// The responder's `SK` mixes in, in order, X25519 of its signed prekey and
/// the initiator's identity key, of its identity key and the ephemeral key,
/// of its signed prekey and the ephemeral key, of its one-time prekey and
/// the ephemeral key when it has one, and last the ML-KEM secret it
/// decapsulated.
pub proof fn lemma_responder_key_is_hybrid_hkdf(
    identity_dh: Seq<u8>,
    signed_prekey: Seq<u8>,
    one_time_prekey: Option<Seq<u8>>,
    kem_shared: Seq<u8>,
    initiator: IdentityPublic,
    message: InitialMessage,
    transcript: Seq<u8>,
)
    ensures
        one_time_prekey matches Some(scalar) ==> shared_key_of(
            responder_secrets(identity_dh, signed_prekey, one_time_prekey, kem_shared, initiator, message),
            transcript,
        ) == hybrid_key(
            x25519_function(signed_prekey, initiator.dh@),
            x25519_function(identity_dh, message.ephemeral@),
            x25519_function(signed_prekey, message.ephemeral@),
            x25519_function(scalar, message.ephemeral@),
            kem_shared,
            transcript,
        ),
        one_time_prekey is None ==> shared_key_of(
            responder_secrets(identity_dh, signed_prekey, one_time_prekey, kem_shared, initiator, message),
            transcript,
        ) == hybrid_key(
            x25519_function(signed_prekey, initiator.dh@),
            x25519_function(identity_dh, message.ephemeral@),
            x25519_function(signed_prekey, message.ephemeral@),
            Seq::empty(),
            kem_shared,
            transcript,
        ),
{
    let secrets = responder_secrets(identity_dh, signed_prekey, one_time_prekey, kem_shared, initiator, message);
    lemma_joined_parts(secrets);
    assert(HYBRID_INFO@ =~= hybrid_info_bytes());
    let d1 = x25519_function(signed_prekey, initiator.dh@);
    let d2 = x25519_function(identity_dh, message.ephemeral@);
    let d3 = x25519_function(signed_prekey, message.ephemeral@);
    match one_time_prekey {
        Some(scalar) => {
            let d4 = x25519_function(scalar, message.ephemeral@);
            assert(joined(secrets) =~= d1 + d2 + d3 + d4 + kem_shared);
            assert(hybrid_ikm(secrets) =~= Seq::new(32, |i: int| 0xFFu8) + d1 + d2 + d3 + d4
                + kem_shared);
            assert(shared_key_of(secrets, transcript) == hkdf_sha512_okm(
                Seq::new(32, |i: int| 0xFFu8) + d1 + d2 + d3 + d4 + kem_shared,
                transcript,
                hybrid_info_bytes(),
                32,
            ));
        },
        None => {
            assert(joined(secrets) =~= d1 + d2 + d3 + Seq::<u8>::empty() + kem_shared);
            assert(hybrid_ikm(secrets) =~= Seq::new(32, |i: int| 0xFFu8) + d1 + d2 + d3
                + Seq::<u8>::empty() + kem_shared);
        },
    }
}

/// The transcript is the BLAKE3 key derivation under the context
/// `QUIETWIRE-X3DH-TRANSCRIPT-v1` of, in order: the initiator's signing, DH
/// and KEM keys, the responder's three, the ephemeral key, the signed
/// prekey, the one-time prekey when the bundle has one, and the KEM
/// ciphertext.
pub proof fn lemma_transcript_order(initiator: IdentityPublic, bundle: PrekeyBundle, message: InitialMessage)
    ensures
        initiator_transcript(initiator, bundle, message) == blake3_derive_key(
            "QUIETWIRE-X3DH-TRANSCRIPT-v1"@,
            initiator.sign@ + initiator.dh@ + initiator.kem@ + bundle.identity.sign@
                + bundle.identity.dh@ + bundle.identity.kem@ + message.ephemeral@
                + bundle.signed_prekey@ + match bundle.one_time_prekey {
                Some(key) => key@,
                None => Seq::empty(),
            } + message.kem_ciphertext@,
        ),
{
    let one_time = optional_key_bytes(bundle.one_time_prekey);
    assert(identity_bytes(initiator) + identity_bytes(bundle.identity) + message.ephemeral@
        + bundle.signed_prekey@ + one_time + message.kem_ciphertext@ =~= initiator.sign@
        + initiator.dh@ + initiator.kem@ + bundle.identity.sign@ + bundle.identity.dh@
        + bundle.identity.kem@ + message.ephemeral@ + bundle.signed_prekey@ + one_time
        + message.kem_ciphertext@);
}

/// Four or five parts laid end to end.
proof fn lemma_joined_parts(parts: Seq<Seq<u8>>)
    requires
        parts.len() == 4 || parts.len() == 5,
    ensures
        parts.len() == 4 ==> joined(parts) == parts[0] + parts[1] + parts[2] + parts[3],
        parts.len() == 5 ==> joined(parts) == parts[0] + parts[1] + parts[2] + parts[3] + parts[4],
{
    reveal_with_fuel(joined, 6);
    if parts.len() == 4 {
        assert(parts.drop_last().drop_last().drop_last().drop_last() =~= Seq::<Seq<u8>>::empty());
        assert(joined(parts) =~= parts[0] + parts[1] + parts[2] + parts[3]);
    } else {
        assert(parts.drop_last().drop_last().drop_last().drop_last().drop_last() =~= Seq::<Seq<u8>>::empty());
        assert(joined(parts) =~= parts[0] + parts[1] + parts[2] + parts[3] + parts[4]);
    }
}

} // verus!
