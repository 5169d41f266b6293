//! Keys, sessions and input edits shared by the fuzz targets.
//!
//! Most random bytes are not valid ML-KEM or Ed25519 public keys, so targets
//! reach the code past the parsers by editing genuine keys instead.

use vstd::prelude::*;

use crate::crypto::aead::{Nonce, NONCE_LEN};
use crate::crypto::ed25519::{ed25519_point_decodes, ed25519_public_of_seed, SigningKey, VerifyingKey};
use crate::crypto::mlkem::{
    ml_kem_768_key_check, ml_kem_768_public_of_seed, DecapsulationKey, EncapsulationKey,
    ENCAPSULATION_KEY_LEN,
};
use crate::crypto::x25519::{
    dh_agrees, dh_result_ok, x25519_function, x25519_public, PrivateKey, PublicKey,
};
use crate::crypto::SecretKey;
use crate::e2e::ratchet::{
    initiator_state, responder_state, session_bounded, SealedFrame, Session, FRAME_LEN,
};
use crate::e2e::x3dh::{IdentityPublic, Initiator, PrekeyBundle, Responder};

verus! {

/// The shared key [`Conversation::start`] starts both sessions from.
pub const SHARED_KEY: [u8; 32] = [
    0x42, 0x42, 0x42, 0x42, 0x42, 0x42, 0x42, 0x42, 0x42, 0x42, 0x42, 0x42, 0x42, 0x42, 0x42, 0x42,
    0x42, 0x42, 0x42, 0x42, 0x42, 0x42, 0x42, 0x42, 0x42, 0x42, 0x42, 0x42, 0x42, 0x42, 0x42, 0x42,
];

/// One byte of an input XOR-ed with a value.
#[derive(Debug, Clone, Copy)]
pub struct Edit {
    /// Where, wrapping past the end.
    pub at: u16,
    /// What the byte is XOR-ed with.
    pub xor: u8,
}

/// `bytes` with the edits applied in order.
pub open spec fn edits_applied(bytes: Seq<u8>, edits: Seq<Edit>) -> Seq<u8>
    decreases edits.len(),
{
    if edits.len() == 0 {
        bytes
    } else {
        let before = edits_applied(bytes, edits.drop_last());
        let at = edits.last().at as int % bytes.len() as int;
        before.update(at, before[at] ^ edits.last().xor)
    }
}

proof fn lemma_edits_keep_length(bytes: Seq<u8>, edits: Seq<Edit>)
    requires
        bytes.len() > 0 || edits.len() == 0,
    ensures
        edits_applied(bytes, edits).len() == bytes.len(),
    decreases edits.len(),
{
    if edits.len() > 0 {
        lemma_edits_keep_length(bytes, edits.drop_last());
    }
}

/// `bytes` with every edit applied, wrapping positions past the end.
pub fn edited<const N: usize>(bytes: [u8; N], edits: &[Edit]) -> (result: [u8; N])
    requires
        N > 0 || edits@.len() == 0,
    ensures
        result@ == edits_applied(bytes@, edits@),
{
    let ghost initial = bytes@;
    let mut bytes = bytes;
    let mut i: usize = 0;
    while i < edits.len()
        invariant
            i <= edits@.len(),
            N > 0 || edits@.len() == 0,
            initial.len() == N,
            bytes@ == edits_applied(initial, edits@.subrange(0, i as int)),
        decreases edits@.len() - i,
    {
        proof {
            lemma_edits_keep_length(initial, edits@.subrange(0, i as int));
            assert(edits@.subrange(0, i + 1).drop_last() =~= edits@.subrange(0, i as int));
        }
        let edit = edits[i];
        let at = edit.at as usize % N;
        bytes[at] = bytes[at] ^ edit.xor;
        i = i + 1;
        assert(bytes@ =~= edits_applied(initial, edits@.subrange(0, i as int)));
    }
    assert(edits@.subrange(0, i as int) =~= edits@);
    bytes
}

/// An encapsulation key as a peer sends it: a genuine key edited, or raw bytes.
#[derive(Debug)]
pub enum KemKey {
    Genuine(Vec<Edit>),
    Raw(Box<[u8; ENCAPSULATION_KEY_LEN]>),
}

impl KemKey {
    /// The bytes of the key, from `genuine` when it edits a genuine key.
    pub open spec fn key_bytes(&self, genuine: Seq<u8>) -> Seq<u8> {
        match self {
            KemKey::Genuine(edits) => edits_applied(genuine, edits@),
            KemKey::Raw(bytes) => bytes@,
        }
    }

    fn to_bytes(&self, genuine: &EncapsulationKey) -> (bytes: [u8; ENCAPSULATION_KEY_LEN])
        ensures
            bytes@ == self.key_bytes(genuine@),
    {
        match self {
            KemKey::Genuine(edits) => edited(genuine.to_bytes(), edits.as_slice()),
            KemKey::Raw(bytes) => **bytes,
        }
    }
}

/// An identity as a peer sends it, before parsing.
#[derive(Debug)]
pub struct PeerIdentity {
    pub sign: [u8; 32],
    pub dh: [u8; 32],
    pub kem: KemKey,
}

impl PeerIdentity {
    /// The identity, or `None` when a key does not parse; an edited KEM key
    /// edits `genuine_kem`.
    pub fn parse(&self, genuine_kem: &EncapsulationKey) -> (identity: Option<IdentityPublic>)
        ensures
            identity is Some <==> ed25519_point_decodes(self.sign@) && ml_kem_768_key_check(
                self.kem.key_bytes(genuine_kem@),
            ),
            identity matches Some(identity) ==> identity.sign@ == self.sign@ && identity.dh@
                == self.dh@ && identity.kem@ == self.kem.key_bytes(genuine_kem@),
    {
        let sign = match VerifyingKey::from_bytes(&self.sign) {
            Ok(key) => key,
            Err(_) => return None,
        };
        let kem_bytes = self.kem.to_bytes(genuine_kem);
        let kem = match EncapsulationKey::from_bytes(&kem_bytes) {
            Ok(key) => key,
            Err(_) => return None,
        };
        Some(IdentityPublic { sign, dh: PublicKey::from_bytes(self.dh), kem })
    }
}

/// A prekey bundle as a peer publishes it, before parsing.
#[derive(Debug)]
pub struct Bundle {
    pub identity: PeerIdentity,
    pub signed_prekey: [u8; 32],
    pub one_time_prekey: Option<[u8; 32]>,
}

impl Bundle {
    /// The bundle, or `None` when its identity does not parse.
    pub fn parse(&self, genuine_kem: &EncapsulationKey) -> (bundle: Option<PrekeyBundle>)
        ensures
            bundle is Some <==> ed25519_point_decodes(self.identity.sign@) && ml_kem_768_key_check(
                self.identity.kem.key_bytes(genuine_kem@),
            ),
            bundle matches Some(bundle) ==> {
                &&& bundle.identity.sign@ == self.identity.sign@
                &&& bundle.identity.dh@ == self.identity.dh@
                &&& bundle.identity.kem@ == self.identity.kem.key_bytes(genuine_kem@)
                &&& bundle.signed_prekey@ == self.signed_prekey@
                &&& match (bundle.one_time_prekey, self.one_time_prekey) {
                    (Some(key), Some(bytes)) => key@ == bytes@,
                    (None, None) => true,
                    _ => false,
                }
            },
    {
        let identity = match self.identity.parse(genuine_kem) {
            Some(identity) => identity,
            None => return None,
        };
        let one_time_prekey = match self.one_time_prekey {
            Some(bytes) => Some(PublicKey::from_bytes(bytes)),
            None => None,
        };
        Some(
            PrekeyBundle {
                identity,
                signed_prekey: PublicKey::from_bytes(self.signed_prekey),
                one_time_prekey,
            },
        )
    }
}

/// A 32-bit number as four big-endian bytes.
pub open spec fn u32_be(value: u32) -> Seq<u8> {
    seq![(value >> 24) as u8, (value >> 16) as u8, (value >> 8) as u8, value as u8]
}

/// `frame` with another ratchet key, if one is given, and other header
/// numbers, written big-endian.
pub fn reheadered(
    frame: &[u8; FRAME_LEN],
    ratchet_key: Option<[u8; 32]>,
    previous_chain_len: u32,
    message_number: u32,
) -> (result: [u8; FRAME_LEN])
    ensures
        result@.subrange(0, 32) == match ratchet_key {
            Some(key) => key@,
            None => frame@.subrange(0, 32),
        },
        result@.subrange(32, 36) == u32_be(previous_chain_len),
        result@.subrange(36, 40) == u32_be(message_number),
        result@.subrange(40, FRAME_LEN as int) == frame@.subrange(40, FRAME_LEN as int),
{
    let mut result = *frame;
    match ratchet_key {
        Some(key) => {
            let mut i: usize = 0;
            while i < 32
                invariant
                    i <= 32,
                    result@.len() == FRAME_LEN,
                    forall|j: int| 0 <= j < i ==> result@[j] == key@[j],
                    forall|j: int| 32 <= j < FRAME_LEN ==> result@[j] == frame@[j],
                decreases 32 - i,
            {
                result[i] = key[i];
                i = i + 1;
            }
            assert(result@.subrange(0, 32) =~= key@);
        },
        None => {},
    }
    let ghost keyed = result@;
    result[32] = (previous_chain_len >> 24) as u8;
    result[33] = (previous_chain_len >> 16) as u8;
    result[34] = (previous_chain_len >> 8) as u8;
    result[35] = previous_chain_len as u8;
    result[36] = (message_number >> 24) as u8;
    result[37] = (message_number >> 16) as u8;
    result[38] = (message_number >> 8) as u8;
    result[39] = message_number as u8;
    assert(result@.subrange(0, 32) =~= keyed.subrange(0, 32));
    assert(result@.subrange(32, 36) =~= u32_be(previous_chain_len));
    assert(result@.subrange(36, 40) =~= u32_be(message_number));
    assert(result@.subrange(40, FRAME_LEN as int) =~= frame@.subrange(40, FRAME_LEN as int));
    result
}

/// `sealed` with one byte of its nonce, then its frame, XOR-ed with `xor`.
pub fn tampered(sealed: &SealedFrame, byte: usize, xor: u8) -> (result: SealedFrame)
    requires
        byte < NONCE_LEN + FRAME_LEN,
    ensures
        byte < NONCE_LEN ==> result.nonce@ == sealed.nonce@.update(
            byte as int,
            sealed.nonce@[byte as int] ^ xor,
        ) && result.frame == sealed.frame,
        byte >= NONCE_LEN ==> result.nonce == sealed.nonce && result.frame@ == sealed.frame@.update(
            byte - NONCE_LEN,
            sealed.frame@[byte - NONCE_LEN] ^ xor,
        ),
{
    let mut result = *sealed;
    if byte < NONCE_LEN {
        let mut nonce = *sealed.nonce.as_bytes();
        nonce[byte] = nonce[byte] ^ xor;
        result.nonce = Nonce::from_bytes(nonce);
    } else {
        let offset = byte - NONCE_LEN;
        result.frame[offset] = result.frame[offset] ^ xor;
    }
    result
}

/// Every private key an X3DH party holds, with its public identity.
pub struct Party {
    identity: IdentityPublic,
    identity_dh: PrivateKey,
    kem: DecapsulationKey,
    signed_prekey: PrivateKey,
    one_time_prekey: PrivateKey,
}

impl Party {
    /// The public identity.
    pub closed spec fn identity(&self) -> IdentityPublic {
        self.identity
    }

    /// The private DH identity key, `IK_dh_priv`.
    pub closed spec fn identity_scalar(&self) -> Seq<u8> {
        self.identity_dh@
    }

    /// The KEM key.
    pub closed spec fn kem_key(&self) -> DecapsulationKey {
        self.kem
    }

    /// The private signed prekey.
    pub closed spec fn signed_prekey_scalar(&self) -> Seq<u8> {
        self.signed_prekey@
    }

    /// The private one-time prekey.
    pub closed spec fn one_time_prekey_scalar(&self) -> Seq<u8> {
        self.one_time_prekey@
    }

    /// Whether the public identity is that of the private keys.
    pub closed spec fn consistent(&self) -> bool {
        &&& self.identity.dh@ == x25519_public(self.identity_dh@)
        &&& self.identity.kem@ == ml_kem_768_public_of_seed(self.kem.seed_d(), self.kem.seed_z())
        &&& exists|seed: Seq<u8>| seed.len() == 32 && self.identity.sign@ == #[trigger] ed25519_public_of_seed(seed)
    }

    /// A party with fresh keys.
    ///
    /// # Errors
    /// [`crate::crypto::Error::Rng`] if the operating system RNG fails.
    pub fn generate() -> (result: Result<Self, crate::crypto::Error>)
        ensures
            result is Err ==> result == Err::<Self, crate::crypto::Error>(crate::crypto::Error::Rng),
            result matches Ok(party) ==> party.consistent(),
    {
        let identity_dh = match PrivateKey::generate() {
            Ok(key) => key,
            Err(error) => return Err(error),
        };
        let kem = match DecapsulationKey::generate() {
            Ok(key) => key,
            Err(error) => return Err(error),
        };
        let signing = match SigningKey::generate() {
            Ok(key) => key,
            Err(error) => return Err(error),
        };
        let signed_prekey = match PrivateKey::generate() {
            Ok(key) => key,
            Err(error) => return Err(error),
        };
        let one_time_prekey = match PrivateKey::generate() {
            Ok(key) => key,
            Err(error) => return Err(error),
        };
        let identity = IdentityPublic {
            sign: signing.verifying_key(),
            dh: identity_dh.public_key(),
            kem: kem.encapsulation_key(),
        };
        Ok(Party { identity, identity_dh, kem, signed_prekey, one_time_prekey })
    }

    /// The party starting a session.
    pub fn initiator(&self) -> (initiator: Initiator<'_>)
        ensures
            *initiator.identity == self.identity(),
            initiator.identity_dh@ == self.identity_scalar(),
    {
        Initiator { identity: &self.identity, identity_dh: &self.identity_dh }
    }

    /// The party answering a session, with or without its one-time prekey.
    pub fn responder(&self, with_one_time_prekey: bool) -> (responder: Responder<'_>)
        ensures
            *responder.identity == self.identity(),
            responder.identity_dh@ == self.identity_scalar(),
            responder.kem.seed_d() == self.kem_key().seed_d(),
            responder.kem.seed_z() == self.kem_key().seed_z(),
            responder.signed_prekey@ == self.signed_prekey_scalar(),
            responder.one_time_prekey is Some <==> with_one_time_prekey,
            responder.one_time_prekey matches Some(key) ==> key@ == self.one_time_prekey_scalar(),
    {
        let one_time_prekey = if with_one_time_prekey {
            Some(&self.one_time_prekey)
        } else {
            None
        };
        Responder {
            identity: &self.identity,
            identity_dh: &self.identity_dh,
            kem: &self.kem,
            signed_prekey: &self.signed_prekey,
            one_time_prekey,
        }
    }
}

/// The two sessions of a conversation, as X3DH would have started them.
pub struct Conversation {
    /// The initiator, which can send at once.
    pub alice: Session,
    /// The responder, which can send once it has received a frame.
    pub bob: Session,
}

impl Conversation {
    /// Starts both sessions from [`SHARED_KEY`] and a fresh signed prekey.
    ///
    /// # Errors
    /// [`crate::crypto::Error::Rng`] if the operating system RNG fails, and
    /// [`crate::crypto::Error::InvalidPublicKey`] in the negligible case that
    /// the fresh keys give an all-zero shared secret.
    pub fn start() -> (result: Result<Self, crate::e2e::ratchet::Error>)
        ensures
            result is Err ==> result == Err::<Self, crate::e2e::ratchet::Error>(
                crate::e2e::ratchet::Error::Crypto(crate::crypto::Error::Rng),
            ) || result == Err::<Self, crate::e2e::ratchet::Error>(
                crate::e2e::ratchet::Error::Crypto(crate::crypto::Error::InvalidPublicKey),
            ),
            result == Err::<Self, crate::e2e::ratchet::Error>(
                crate::e2e::ratchet::Error::Crypto(crate::crypto::Error::InvalidPublicKey),
            ) ==> exists|own: Seq<u8>, signed_prekey: Seq<u8>|
                #![trigger dh_result_ok(own, x25519_public(signed_prekey))]
                own.len() == 32 && signed_prekey.len() == 32 && !dh_result_ok(
                    own,
                    x25519_public(signed_prekey),
                ),
            result matches Ok(conversation) ==> {
                &&& session_bounded(conversation.alice@)
                &&& session_bounded(conversation.bob@)
                &&& exists|own: Seq<u8>, signed_prekey: Seq<u8>|
                    #![trigger initiator_state(SHARED_KEY@, own, x25519_public(signed_prekey))]
                    own.len() == 32 && signed_prekey.len() == 32 && dh_agrees(
                        own,
                        x25519_public(signed_prekey),
                        x25519_function(own, x25519_public(signed_prekey)),
                    ) && conversation.alice@ == initiator_state(
                        SHARED_KEY@,
                        own,
                        x25519_public(signed_prekey),
                    ) && conversation.bob@ == responder_state(SHARED_KEY@, signed_prekey)
            },
    {
        let signed_prekey = match PrivateKey::generate() {
            Ok(key) => key,
            Err(error) => return Err(crate::e2e::ratchet::Error::Crypto(error)),
        };
        let remote_ratchet = signed_prekey.public_key();
        let alice_key = match SecretKey::from_slice(SHARED_KEY.as_slice()) {
            Ok(key) => key,
            Err(error) => return Err(crate::e2e::ratchet::Error::Crypto(error)),
        };
        let bob_key = match SecretKey::from_slice(SHARED_KEY.as_slice()) {
            Ok(key) => key,
            Err(error) => return Err(crate::e2e::ratchet::Error::Crypto(error)),
        };
        let alice = match Session::initiator(&alice_key, remote_ratchet) {
            Ok(session) => session,
            Err(error) => {
                proof {
                    if error == crate::e2e::ratchet::Error::Crypto(crate::crypto::Error::InvalidPublicKey) {
                        let own = choose|own: Seq<u8>|
                            own.len() == 32 && !#[trigger] dh_result_ok(own, remote_ratchet@);
                        assert(!dh_result_ok(own, x25519_public(signed_prekey@)));
                    }
                }
                return Err(error);
            },
        };
        let ghost spk = signed_prekey@;
        let bob = Session::responder(bob_key, signed_prekey);
        Ok(Conversation { alice, bob })
    }
}

} // verus!
