//! Hybrid X3DH through the public API: fresh sessions and the inputs a
//! session must refuse or tell apart.

use quietwire::crypto::ed25519::SigningKey;
use quietwire::crypto::mlkem::{Ciphertext, DecapsulationKey, CIPHERTEXT_LEN};
use quietwire::crypto::x25519::{PrivateKey, PublicKey};
use quietwire::crypto::{Error, SecretKey};
use quietwire::e2e::x3dh::{IdentityPublic, InitialMessage, Initiator, PrekeyBundle, Responder};

fn low_order_point() -> PublicKey {
    PublicKey::from_bytes([0; 32])
}

struct Party {
    identity: IdentityPublic,
    identity_dh: PrivateKey,
    kem: DecapsulationKey,
    signed_prekey: PrivateKey,
    one_time_prekey: PrivateKey,
}

impl Party {
    fn generate() -> Self {
        let identity_dh = PrivateKey::generate().unwrap();
        let kem = DecapsulationKey::generate().unwrap();
        Self {
            identity: IdentityPublic {
                sign: SigningKey::generate().unwrap().verifying_key(),
                dh: identity_dh.public_key(),
                kem: kem.encapsulation_key(),
            },
            identity_dh,
            kem,
            signed_prekey: PrivateKey::generate().unwrap(),
            one_time_prekey: PrivateKey::generate().unwrap(),
        }
    }

    fn initiator(&self) -> Initiator<'_> {
        Initiator {
            identity: &self.identity,
            identity_dh: &self.identity_dh,
        }
    }

    fn responder(&self, with_one_time_prekey: bool) -> Responder<'_> {
        Responder {
            identity: &self.identity,
            identity_dh: &self.identity_dh,
            kem: &self.kem,
            signed_prekey: &self.signed_prekey,
            one_time_prekey: with_one_time_prekey.then_some(&self.one_time_prekey),
        }
    }
}

fn bytes(key: &SecretKey) -> Vec<u8> {
    key.expose_secret().to_vec()
}

fn initiate(alice: &Party, bundle: &PrekeyBundle) -> (Vec<u8>, InitialMessage) {
    let (shared, message) = alice.initiator().initiate(bundle).unwrap();
    (bytes(&shared), message)
}

fn respond(bob: &Responder<'_>, alice: &Party, message: &InitialMessage) -> Vec<u8> {
    bytes(&bob.respond(&alice.identity, message).unwrap())
}

#[test]
fn fresh_sessions_agree_with_and_without_one_time_prekey() {
    let (alice, bob) = (Party::generate(), Party::generate());

    for with_one_time_prekey in [true, false] {
        let responder = bob.responder(with_one_time_prekey);
        let (initiator_key, message) = initiate(&alice, &responder.bundle());

        assert_eq!(respond(&responder, &alice, &message), initiator_key);
    }
}

#[test]
fn every_session_derives_a_new_key() {
    let (alice, bob) = (Party::generate(), Party::generate());
    let bundle = bob.responder(true).bundle();

    let (first, first_message) = initiate(&alice, &bundle);
    let (second, second_message) = initiate(&alice, &bundle);

    assert_ne!(first, second);
    assert_ne!(first_message.ephemeral, second_message.ephemeral);
}

#[test]
fn stripping_the_one_time_prekey_splits_the_session() {
    let (alice, bob) = (Party::generate(), Party::generate());
    let responder = bob.responder(true);
    let stripped = PrekeyBundle {
        one_time_prekey: None,
        ..responder.bundle()
    };

    let (initiator_key, message) = initiate(&alice, &stripped);

    assert_ne!(respond(&responder, &alice, &message), initiator_key);
}

#[test]
fn a_forged_kem_ciphertext_splits_the_session() {
    let (alice, bob) = (Party::generate(), Party::generate());
    let responder = bob.responder(true);
    let (initiator_key, message) = initiate(&alice, &responder.bundle());
    let forged = InitialMessage {
        kem_ciphertext: Ciphertext::from_bytes([0x5A; CIPHERTEXT_LEN]),
        ..message
    };

    assert_ne!(respond(&responder, &alice, &forged), initiator_key);
}

#[test]
fn a_claimed_initiator_identity_splits_the_session() {
    let (alice, bob, mallory) = (Party::generate(), Party::generate(), Party::generate());
    let responder = bob.responder(true);
    let (initiator_key, message) = initiate(&alice, &responder.bundle());
    let claimed = IdentityPublic {
        dh: alice.identity.dh,
        ..mallory.identity
    };

    let responder_key = responder.respond(&claimed, &message).unwrap();

    assert_ne!(bytes(&responder_key), initiator_key);
}

#[test]
fn initiator_refuses_a_low_order_prekey() {
    let (alice, bob) = (Party::generate(), Party::generate());
    let bundle = bob.responder(true).bundle();
    let low_order_signed_prekey = PrekeyBundle {
        signed_prekey: low_order_point(),
        ..bundle.clone()
    };
    let low_order_one_time_prekey = PrekeyBundle {
        one_time_prekey: Some(low_order_point()),
        ..bundle
    };

    for bundle in [low_order_signed_prekey, low_order_one_time_prekey] {
        let refused = alice.initiator().initiate(&bundle);
        assert!(matches!(refused, Err(Error::InvalidPublicKey)));
    }
}

#[test]
fn responder_refuses_a_low_order_ephemeral_key() {
    let (alice, bob) = (Party::generate(), Party::generate());
    let responder = bob.responder(true);
    let (_, message) = initiate(&alice, &responder.bundle());
    let low_order = InitialMessage {
        ephemeral: low_order_point(),
        ..message
    };

    let refused = responder.respond(&alice.identity, &low_order);

    assert!(matches!(refused, Err(Error::InvalidPublicKey)));
}

#[test]
fn both_parties_see_the_same_bundle_and_only_the_responder_can_answer() {
    let (alice, bob, mallory) = (Party::generate(), Party::generate(), Party::generate());
    let responder = bob.responder(false);
    let bundle = responder.bundle();
    assert_eq!(bundle.identity, bob.identity);
    assert_eq!(bundle.signed_prekey, bob.signed_prekey.public_key());
    assert_eq!(bundle.one_time_prekey, None);

    let (initiator_key, message) = initiate(&alice, &bundle);
    let impostor = Responder {
        identity: &bob.identity,
        identity_dh: &mallory.identity_dh,
        kem: &bob.kem,
        signed_prekey: &bob.signed_prekey,
        one_time_prekey: None,
    };

    assert_eq!(respond(&responder, &alice, &message), initiator_key);
    assert_ne!(respond(&impostor, &alice, &message), initiator_key);
}
