//! A whole conversation delivered out of order, with losses, duplicates and
//! flipped bits, driven by a fixed pseudo-random sequence: every frame opens
//! once to its plaintext and is refused after that, and a frame with a bit
//! flipped yields nothing and leaves the session able to open the genuine one.

use quietwire::crypto::aead::{Nonce, NONCE_LEN};
use quietwire::crypto::x25519::PrivateKey;
use quietwire::crypto::{Error as CryptoError, SecretKey};
use quietwire::e2e::ratchet::{Error, SealedFrame, Session, FRAME_LEN, PLAINTEXT_LEN};

const ACTIONS: usize = 400;

#[derive(Clone, Copy, PartialEq, Debug)]
enum Party {
    Alice,
    Bob,
}

impl Party {
    fn peer(self) -> Self {
        match self {
            Party::Alice => Party::Bob,
            Party::Bob => Party::Alice,
        }
    }
}

struct InFlight {
    sealed: SealedFrame,
    plaintext: [u8; PLAINTEXT_LEN],
    opened: bool,
}

struct Conversation {
    alice: Session,
    bob: Session,
    to_alice: Vec<InFlight>,
    to_bob: Vec<InFlight>,
    bob_has_received: bool,
    sent: u32,
}

impl Conversation {
    fn new() -> Self {
        let shared_key = [0x42; 32];
        let signed_prekey = PrivateKey::generate().unwrap();
        let remote_ratchet = signed_prekey.public_key();
        Conversation {
            alice: Session::initiator(&SecretKey::from_slice(&shared_key).unwrap(), remote_ratchet)
                .unwrap(),
            bob: Session::responder(SecretKey::from_slice(&shared_key).unwrap(), signed_prekey),
            to_alice: Vec::new(),
            to_bob: Vec::new(),
            bob_has_received: false,
            sent: 0,
        }
    }

    fn session(&mut self, party: Party) -> &mut Session {
        match party {
            Party::Alice => &mut self.alice,
            Party::Bob => &mut self.bob,
        }
    }

    fn inbox(&mut self, party: Party) -> &mut Vec<InFlight> {
        match party {
            Party::Alice => &mut self.to_alice,
            Party::Bob => &mut self.to_bob,
        }
    }

    fn send(&mut self, from: Party) {
        let plaintext = numbered_plaintext(self.sent);
        self.sent += 1;
        let result = self.session(from).encrypt(&plaintext);
        if from == Party::Bob && !self.bob_has_received {
            assert_eq!(result.err(), Some(Error::SendingBlocked));
            return;
        }
        let sealed = result.unwrap();
        self.inbox(from.peer()).push(InFlight {
            sealed,
            plaintext,
            opened: false,
        });
    }

    fn deliver(&mut self, to: Party, pick: usize) {
        if self.inbox(to).is_empty() {
            return;
        }
        let index = pick % self.inbox(to).len();
        let sealed = self.inbox(to)[index].sealed;
        let result = self.session(to).decrypt(&sealed);
        let frame = &mut self.inbox(to)[index];
        if frame.opened {
            assert_eq!(
                result.err(),
                Some(Error::Crypto(CryptoError::Authentication))
            );
            return;
        }
        assert_eq!(result.unwrap().as_slice(), &frame.plaintext[..]);
        frame.opened = true;
        self.bob_has_received |= to == Party::Bob;
    }
}

fn numbered_plaintext(number: u32) -> [u8; PLAINTEXT_LEN] {
    let mut plaintext = [0; PLAINTEXT_LEN];
    plaintext[..4].copy_from_slice(&number.to_le_bytes());
    plaintext
}

fn with_bit_flipped(sealed: &SealedFrame, bit: usize) -> SealedFrame {
    let mut flipped = *sealed;
    let (byte, mask) = (bit / 8, 1 << (bit % 8));
    match byte.checked_sub(NONCE_LEN) {
        None => {
            let mut nonce = *flipped.nonce.as_bytes();
            nonce[byte] ^= mask;
            flipped.nonce = Nonce::from_bytes(nonce);
        }
        Some(offset) => flipped.frame[offset] ^= mask,
    }
    flipped
}

/// A small linear congruential generator: the same sequence on every run.
struct Sequence(u64);

impl Sequence {
    fn next(&mut self) -> usize {
        self.0 = self
            .0
            .wrapping_mul(6_364_136_223_846_793_005)
            .wrapping_add(1_442_695_040_888_963_407);
        (self.0 >> 33) as usize
    }
}

#[test]
fn every_delivered_frame_opens_exactly_once() {
    for seed in [1, 2, 3] {
        let mut sequence = Sequence(seed);
        let mut conversation = Conversation::new();
        for _ in 0..ACTIONS {
            let party = if sequence.next() % 2 == 0 {
                Party::Alice
            } else {
                Party::Bob
            };
            if sequence.next() % 3 == 0 {
                conversation.send(party);
            } else {
                let pick = sequence.next();
                conversation.deliver(party, pick);
            }
        }
    }
}

#[test]
fn a_flipped_bit_yields_no_plaintext() {
    let sealed_bits = (NONCE_LEN + FRAME_LEN) * 8;
    let mut sequence = Sequence(7);
    for _ in 0..24 {
        let mut conversation = Conversation::new();
        let preceding = sequence.next() % 8;
        for _ in 0..=preceding {
            conversation.send(Party::Alice);
        }
        let genuine = conversation.to_bob.last().unwrap();
        let (sealed, plaintext) = (genuine.sealed, genuine.plaintext);
        let bit = sequence.next() % sealed_bits;

        assert!(conversation.bob.decrypt(&with_bit_flipped(&sealed, bit)).is_err());
        assert_eq!(
            conversation.bob.decrypt(&sealed).unwrap().as_slice(),
            &plaintext[..]
        );
    }
}
