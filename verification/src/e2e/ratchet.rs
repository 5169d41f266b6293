//! Message encryption: the Double Ratchet over a fixed 452-byte frame.
//!
//! A session only changes when a frame authenticates: a forged, replayed or
//! truncated frame leaves it exactly as it was.

use std::collections::VecDeque;
use vstd::bytes::{
    lemma_auto_spec_u32_to_from_le_bytes, spec_u32_from_le_bytes, spec_u32_to_le_bytes,
    u32_from_le_bytes, u32_to_le_bytes,
};
use vstd::prelude::*;
use vstd::slice::slice_subrange;

use crate::crypto::aead::{self, within_cipher_limit, xchacha20_poly1305_seal, Nonce, TAG_LEN};
use crate::crypto::kdf::{hkdf_sha512, hkdf_sha512_okm, hmac_sha512, hmac_sha512_tag};
use crate::crypto::x25519::{
    dh_agrees, dh_result_ok, x25519_function, x25519_public, x25519_zero_point, PrivateKey,
    PublicKey,
};
use crate::crypto::{key_bytes_held, secret_buffer_held, KeyBytes, SecretBuffer, SecretKey};
use crate::wire::{copy_into, take_array};

verus! {

/// Length of the cleartext ratchet header at the start of a frame.
pub const HEADER_LEN: usize = 40;
/// Length of the plaintext a frame carries.
pub const PLAINTEXT_LEN: usize = 396;
/// Length of a frame: header, ciphertext and tag.
pub const FRAME_LEN: usize = 452;
/// Frames one sending chain carries before the peer has to reply.
pub const CHAIN_LIMIT: u32 = 2000;
/// Message keys one chain may skip, and keep, at most.
pub const MAX_SKIP_PER_CHAIN: u32 = 1000;
/// Skipped message keys a session keeps at most, over all chains.
pub const MAX_SKIPPED_TOTAL: usize = 10000;
/// The HKDF info of a root step: `QUIETWIRE-ROOT-v1`.
pub const ROOT_INFO: [u8; 17] = [
    0x51, 0x55, 0x49, 0x45, 0x54, 0x57, 0x49, 0x52, 0x45, 0x2d, 0x52, 0x4f, 0x4f, 0x54, 0x2d, 0x76,
    0x31,
];
/// The HMAC input that derives a message key from a chain key.
pub const MESSAGE_KEY_INPUT: [u8; 1] = [0x01];
/// The HMAC input that derives the next chain key.
pub const CHAIN_KEY_INPUT: [u8; 1] = [0x02];

const KEY_LEN: usize = 32;
const PREVIOUS_CHAIN_LEN_AT: usize = 32;
const MESSAGE_NUMBER_AT: usize = 36;

/// Why a frame could not be sent or received.
#[derive(Debug, Clone, Copy, PartialEq, Eq)]
pub enum Error {
    /// A primitive failed. [`crate::crypto::Error::Authentication`] also
    /// covers a frame whose key is gone: a replay, or one older than the
    /// skipped keys kept.
    Crypto(crate::crypto::Error),
    /// There is no sending chain yet, or it has reached the chain limit;
    /// sending resumes once a frame from the peer is received.
    SendingBlocked,
    /// The header asks for more skipped keys than one chain may hold.
    TooFarAhead,
}

/// The sentence each error is shown as: that of the primitive's error for
/// [`Error::Crypto`].
pub open spec fn ratchet_error_message(error: Error) -> &'static str {
    match error {
        Error::Crypto(error) => crate::crypto::error_message(error),
        Error::SendingBlocked => "sending is blocked until the peer replies",
        Error::TooFarAhead => "frame is too far ahead of its chain",
    }
}

impl Error {
    /// The sentence this error is shown as: that of the primitive's error
    /// for [`Error::Crypto`].
    pub fn message(&self) -> (text: &'static str)
        ensures
            text == ratchet_error_message(*self),
    {
        match self {
            Error::Crypto(error) => error.message(),
            Error::SendingBlocked => "sending is blocked until the peer replies",
            Error::TooFarAhead => "frame is too far ahead of its chain",
        }
    }

    /// The primitive's error behind this one, if any.
    pub fn source(&self) -> (source: Option<crate::crypto::Error>)
        ensures
            source == (match *self {
                Error::Crypto(error) => Some(error),
                _ => None,
            }),
    {
        match self {
            Error::Crypto(error) => Some(*error),
            Error::SendingBlocked => None,
            Error::TooFarAhead => None,
        }
    }
}

impl From<crate::crypto::Error> for Error {
    fn from(error: crate::crypto::Error) -> (converted: Self) {
        Error::Crypto(error)
    }
}

impl vstd::std_specs::convert::FromSpecImpl<crate::crypto::Error> for Error {
    open spec fn obeys_from_spec() -> bool {
        true
    }

    open spec fn from_spec(error: crate::crypto::Error) -> Error {
        Error::Crypto(error)
    }
}

/// An encrypted frame and the nonce it was sealed with.
///
/// The nonce is not part of the frame: the cell carries it and reuses it under
/// its own, independent key.
#[derive(Debug, Clone, Copy, PartialEq, Eq)]
pub struct SealedFrame {
    /// The random nonce.
    pub nonce: Nonce,
    /// Ratchet header, ciphertext and tag.
    pub frame: [u8; FRAME_LEN],
}

/// The first 32 bytes of the HMAC-SHA512 of `input` under a chain key.
pub open spec fn chain_output(chain_key: Seq<u8>, input: Seq<u8>) -> Seq<u8> {
    hmac_sha512_tag(chain_key, input).subrange(0, 32)
}

/// The message key a chain key yields.
pub open spec fn message_key_of(chain_key: Seq<u8>) -> Seq<u8> {
    chain_output(chain_key, MESSAGE_KEY_INPUT@)
}

/// The chain key that follows a chain key.
pub open spec fn next_chain_key(chain_key: Seq<u8>) -> Seq<u8> {
    chain_output(chain_key, CHAIN_KEY_INPUT@)
}

/// The chain key `steps` steps along from `chain_key`.
pub open spec fn chain_key_after(chain_key: Seq<u8>, steps: nat) -> Seq<u8>
    decreases steps,
{
    if steps == 0 {
        chain_key
    } else {
        next_chain_key(chain_key_after(chain_key, (steps - 1) as nat))
    }
}

/// The message key `steps` steps along from `chain_key`.
pub open spec fn message_key_after(chain_key: Seq<u8>, steps: nat) -> Seq<u8> {
    message_key_of(chain_key_after(chain_key, steps))
}

/// The 64 bytes a root step derives: the next root key, then a chain key.
pub open spec fn root_output(root_key: Seq<u8>, own: Seq<u8>, remote: Seq<u8>) -> Seq<u8> {
    hkdf_sha512_okm(x25519_function(own, remote), root_key, ROOT_INFO@, 64)
}

/// The next root key of a root step.
pub open spec fn next_root_key(root_key: Seq<u8>, own: Seq<u8>, remote: Seq<u8>) -> Seq<u8> {
    root_output(root_key, own, remote).subrange(0, 32)
}

/// The chain key of a root step.
pub open spec fn root_chain_key(root_key: Seq<u8>, own: Seq<u8>, remote: Seq<u8>) -> Seq<u8> {
    root_output(root_key, own, remote).subrange(32, 64)
}

/// The cleartext header: ratchet key, previous chain length, message number,
/// the numbers little-endian.
pub open spec fn header_bytes(ratchet: Seq<u8>, previous_chain_len: u32, message_number: u32) -> Seq<u8> {
    ratchet + spec_u32_to_le_bytes(previous_chain_len) + spec_u32_to_le_bytes(message_number)
}

/// The ratchet key a frame's header carries.
pub open spec fn frame_ratchet(frame: Seq<u8>) -> Seq<u8> {
    frame.subrange(0, 32)
}

/// The previous chain length a frame's header carries.
pub open spec fn frame_previous_chain_len(frame: Seq<u8>) -> u32 {
    spec_u32_from_le_bytes(frame.subrange(32, 36))
}

/// The message number a frame's header carries.
pub open spec fn frame_message_number(frame: Seq<u8>) -> u32 {
    spec_u32_from_le_bytes(frame.subrange(36, 40))
}

/// What `key` opens `frame` to under `nonce`: a plaintext that seals, with
/// the header as associated data, to the rest of the frame.
pub open spec fn opens_to(key: Seq<u8>, nonce: Seq<u8>, frame: Seq<u8>, plaintext: Seq<u8>) -> bool {
    &&& xchacha20_poly1305_seal(
        key,
        nonce,
        frame.subrange(0, HEADER_LEN as int),
        plaintext,
    ) == frame.subrange(HEADER_LEN as int, FRAME_LEN as int)
    &&& within_cipher_limit(plaintext.len())
}

/// Whether `plaintext` is the one plaintext `key` opens `frame` to.
pub open spec fn only_opening(key: Seq<u8>, nonce: Seq<u8>, frame: Seq<u8>, plaintext: Seq<u8>) -> bool {
    forall|other: Seq<u8>| #[trigger] opens_to(key, nonce, frame, other) ==> other == plaintext
}

/// Whether `key` opens `frame` to anything.
pub open spec fn opens(key: Seq<u8>, nonce: Seq<u8>, frame: Seq<u8>) -> bool {
    exists|plaintext: Seq<u8>| #[trigger] opens_to(key, nonce, frame, plaintext)
}

struct Header {
    ratchet: PublicKey,
    previous_chain_len: u32,
    message_number: u32,
}

impl Header {
    fn parse(frame: &[u8; FRAME_LEN]) -> (header: Self)
        ensures
            header.ratchet@ == frame_ratchet(frame@),
            header.previous_chain_len == frame_previous_chain_len(frame@),
            header.message_number == frame_message_number(frame@),
    {
        let ratchet: [u8; 32] = take_array(frame.as_slice(), 0);
        Header {
            ratchet: PublicKey::from_bytes(ratchet),
            previous_chain_len: u32_from_le_bytes(
                slice_subrange(frame.as_slice(), PREVIOUS_CHAIN_LEN_AT, MESSAGE_NUMBER_AT),
            ),
            message_number: u32_from_le_bytes(
                slice_subrange(frame.as_slice(), MESSAGE_NUMBER_AT, HEADER_LEN),
            ),
        }
    }

    fn to_bytes(&self) -> (bytes: [u8; HEADER_LEN])
        ensures
            bytes@ == header_bytes(self.ratchet@, self.previous_chain_len, self.message_number),
    {
        proof {
            lemma_auto_spec_u32_to_from_le_bytes();
        }
        let mut bytes = [0u8; HEADER_LEN];
        copy_into(&mut bytes, 0, self.ratchet.as_bytes().as_slice());
        let previous = u32_to_le_bytes(self.previous_chain_len);
        copy_into(&mut bytes, PREVIOUS_CHAIN_LEN_AT, previous.as_slice());
        let number = u32_to_le_bytes(self.message_number);
        copy_into(&mut bytes, MESSAGE_NUMBER_AT, number.as_slice());
        assert(bytes@ =~= header_bytes(self.ratchet@, self.previous_chain_len, self.message_number));
        bytes
    }
}

/// Returns the message key and the next chain key.
fn kdf_chain(chain_key: &KeyBytes) -> (keys: (KeyBytes, KeyBytes))
    ensures
        key_bytes_held(keys.0) == message_key_of(key_bytes_held(*chain_key)),
        key_bytes_held(keys.1) == next_chain_key(key_bytes_held(*chain_key)),
{
    let message_tag = hmac_sha512(chain_key.bytes().as_slice(), MESSAGE_KEY_INPUT.as_slice());
    let message_key = KeyBytes::copy_of(slice_subrange(message_tag.as_slice(), 0, KEY_LEN));
    let chain_tag = hmac_sha512(chain_key.bytes().as_slice(), CHAIN_KEY_INPUT.as_slice());
    let next_key = KeyBytes::copy_of(slice_subrange(chain_tag.as_slice(), 0, KEY_LEN));
    (message_key, next_key)
}

/// The key pairs `(number, message key)` a chain at `chain_key`, numbered
/// from `from`, yields for the numbers up to `until`.
pub open spec fn chain_run(chain_key: Seq<u8>, from: u32, until: u32) -> Seq<(u32, Seq<u8>)> {
    if until <= from {
        Seq::empty()
    } else {
        Seq::new(
            (until - from) as nat,
            |j: int| ((from + j) as u32, message_key_after(chain_key, j as nat)),
        )
    }
}

/// The bytes of each numbered key.
pub open spec fn numbered_views(pairs: Seq<(u32, KeyBytes)>) -> Seq<(u32, Seq<u8>)> {
    pairs.map_values(|pair: (u32, KeyBytes)| (pair.0, key_bytes_held(pair.1)))
}

struct Chain {
    key: SecretKey,
    next: u32,
}

/// A chain being advanced; nothing reaches the session until it is turned
/// back into a [`Chain`].
struct Cursor {
    key: KeyBytes,
    next: u32,
    skipped: VecDeque<(u32, KeyBytes)>,
}

impl Cursor {
    fn new(key: KeyBytes) -> (cursor: Self)
        ensures
            key_bytes_held(cursor.key) == key_bytes_held(key),
            cursor.next == 0,
            cursor.skipped@.len() == 0,
    {
        Cursor { key, next: 0, skipped: VecDeque::new() }
    }

    fn at(chain: &Chain) -> (cursor: Self)
        ensures
            key_bytes_held(cursor.key) == chain.key@,
            cursor.next == chain.next,
            cursor.skipped@.len() == 0,
    {
        let key = KeyBytes::copy_of(chain.key.expose_secret().as_slice());
        Cursor { key, next: chain.next, skipped: VecDeque::new() }
    }

    fn next_message_key(&mut self) -> (message_key: KeyBytes)
        requires
            old(self).next < CHAIN_LIMIT,
        ensures
            key_bytes_held(message_key) == message_key_of(key_bytes_held(old(self).key)),
            key_bytes_held(final(self).key) == next_chain_key(key_bytes_held(old(self).key)),
            final(self).next == old(self).next + 1,
            final(self).skipped@ == old(self).skipped@,
    {
        let (message_key, chain_key) = kdf_chain(&self.key);
        self.key = chain_key;
        self.next = self.next + 1;
        message_key
    }

    fn skip_to(&mut self, until: u32) -> (result: Result<(), Error>)
        requires
            old(self).next <= CHAIN_LIMIT,
        ensures
            result is Err <==> (until > CHAIN_LIMIT || until - old(self).next > MAX_SKIP_PER_CHAIN),
            result is Err ==> result == Err::<(), Error>(Error::TooFarAhead) && *final(self)
                == *old(self),
            result is Ok ==> {
                &&& final(self).next == if until > old(self).next {
                    until
                } else {
                    old(self).next
                }
                &&& key_bytes_held(final(self).key) == chain_key_after(
                    key_bytes_held(old(self).key),
                    (final(self).next - old(self).next) as nat,
                )
                &&& numbered_views(final(self).skipped@) == numbered_views(old(self).skipped@)
                    + chain_run(key_bytes_held(old(self).key), old(self).next, until)
            },
    {
        if until > CHAIN_LIMIT || (until > self.next && until - self.next > MAX_SKIP_PER_CHAIN) {
            return Err(Error::TooFarAhead);
        }
        let ghost start = key_bytes_held(self.key);
        let ghost from = self.next;
        let ghost before = numbered_views(self.skipped@);
        while self.next < until
            invariant
                from <= self.next <= CHAIN_LIMIT,
                until <= CHAIN_LIMIT,
                self.next <= until || self.next == from,
                key_bytes_held(self.key) == chain_key_after(start, (self.next - from) as nat),
                numbered_views(self.skipped@) == before + chain_run(start, from, self.next),
            decreases until - self.next,
        {
            let number = self.next;
            let ghost pushed_before = self.skipped@;
            let key = self.next_message_key();
            assert(key_bytes_held(key) == message_key_after(start, (number - from) as nat));
            self.skipped.push_back((number, key));
            proof {
                assert(self.skipped@ == pushed_before.push((number, key)));
                assert(numbered_views(self.skipped@) =~= numbered_views(pushed_before).push(
                    (number, key_bytes_held(key)),
                ));
                assert(chain_run(start, from, self.next) =~= chain_run(start, from, number).push(
                    (number, message_key_after(start, (number - from) as nat)),
                ));
                assert(numbered_views(self.skipped@) =~= before + chain_run(start, from, self.next));
            }
        }
        proof {
            if until <= from {
                assert(chain_run(start, from, until) =~= Seq::empty());
                assert(before + chain_run(start, from, from) =~= before);
            }
        }
        Ok(())
    }

    fn message_key(&mut self, number: u32) -> (result: Result<KeyBytes, Error>)
        requires
            old(self).next <= CHAIN_LIMIT,
        ensures
            number >= CHAIN_LIMIT ==> result == Err::<KeyBytes, Error>(Error::TooFarAhead),
            number < CHAIN_LIMIT && number < old(self).next ==> result == Err::<KeyBytes, Error>(
                Error::Crypto(crate::crypto::Error::Authentication),
            ),
            number < CHAIN_LIMIT && number >= old(self).next && number - old(self).next
                > MAX_SKIP_PER_CHAIN ==> result == Err::<KeyBytes, Error>(Error::TooFarAhead),
            result is Ok <==> number < CHAIN_LIMIT && old(self).next <= number && number
                - old(self).next <= MAX_SKIP_PER_CHAIN,
            result is Err ==> *final(self) == *old(self),
            result matches Ok(key) ==> {
                &&& key_bytes_held(key) == message_key_after(
                    key_bytes_held(old(self).key),
                    (number - old(self).next) as nat,
                )
                &&& final(self).next == number + 1
                &&& key_bytes_held(final(self).key) == chain_key_after(
                    key_bytes_held(old(self).key),
                    (number + 1 - old(self).next) as nat,
                )
                &&& numbered_views(final(self).skipped@) == numbered_views(old(self).skipped@)
                    + chain_run(key_bytes_held(old(self).key), old(self).next, number)
            },
    {
        if number >= CHAIN_LIMIT {
            return Err(Error::TooFarAhead);
        }
        if number < self.next {
            return Err(Error::Crypto(crate::crypto::Error::Authentication));
        }
        let ghost start = key_bytes_held(self.key);
        let ghost from = self.next;
        match self.skip_to(number) {
            Ok(()) => {},
            Err(error) => return Err(error),
        }
        let key = self.next_message_key();
        Ok(key)
    }

    fn take_skipped(&mut self) -> (skipped: VecDeque<(u32, KeyBytes)>)
        ensures
            skipped@ == old(self).skipped@,
            final(self).skipped@.len() == 0,
            final(self).next == old(self).next,
            final(self).key == old(self).key,
    {
        let mut taken: VecDeque<(u32, KeyBytes)> = VecDeque::new();
        std::mem::swap(&mut taken, &mut self.skipped);
        taken
    }

    fn into_chain(self) -> (chain: Chain)
        ensures
            chain.key@ == key_bytes_held(self.key),
            chain.next == self.next,
    {
        let key = SecretKey::from_key_bytes(self.key);
        Chain { key, next: self.next }
    }
}


/// One kept message key: the ratchet key of its chain, its number, the key.
pub struct SkippedView {
    pub ratchet: Seq<u8>,
    pub number: u32,
    pub key: Seq<u8>,
}

/// Whether a kept key is the one for the frame numbered `number` of the
/// chain of `ratchet`.
pub open spec fn is_key_for(entry: SkippedView, ratchet: Seq<u8>, number: u32) -> bool {
    entry.ratchet == ratchet && entry.number == number
}

/// How many kept keys belong to the chain of `ratchet`.
pub open spec fn count_of(entries: Seq<SkippedView>, ratchet: Seq<u8>) -> nat
    decreases entries.len(),
{
    if entries.len() == 0 {
        0
    } else {
        count_of(entries.drop_last(), ratchet) + if entries.last().ratchet == ratchet {
            1nat
        } else {
            0nat
        }
    }
}

/// `entries` without the oldest `excess` keys of the chain of `ratchet`.
pub open spec fn evicted(entries: Seq<SkippedView>, ratchet: Seq<u8>, excess: nat) -> Seq<SkippedView>
    decreases entries.len(),
{
    if entries.len() == 0 {
        Seq::empty()
    } else if entries.last().ratchet == ratchet && count_of(entries.drop_last(), ratchet) < excess {
        evicted(entries.drop_last(), ratchet, excess)
    } else {
        evicted(entries.drop_last(), ratchet, excess).push(entries.last())
    }
}

/// The numbered keys of one chain as kept keys.
pub open spec fn entries_for(ratchet: Seq<u8>, pairs: Seq<(u32, Seq<u8>)>) -> Seq<SkippedView> {
    pairs.map_values(|pair: (u32, Seq<u8>)| SkippedView { ratchet, number: pair.0, key: pair.1 })
}

/// The keys of the chain of `ratchet` past [`MAX_SKIP_PER_CHAIN`].
pub open spec fn excess_of(entries: Seq<SkippedView>, ratchet: Seq<u8>) -> nat {
    if count_of(entries, ratchet) > MAX_SKIP_PER_CHAIN {
        (count_of(entries, ratchet) - MAX_SKIP_PER_CHAIN) as nat
    } else {
        0
    }
}

/// The newest [`MAX_SKIPPED_TOTAL`] keys.
pub open spec fn newest(entries: Seq<SkippedView>) -> Seq<SkippedView> {
    if entries.len() > MAX_SKIPPED_TOTAL {
        entries.subrange(entries.len() - MAX_SKIPPED_TOTAL, entries.len() as int)
    } else {
        entries
    }
}

/// The kept keys after adding the numbered keys of the chain of `ratchet`:
/// that chain keeps its newest [`MAX_SKIP_PER_CHAIN`] keys, and the session
/// its newest [`MAX_SKIPPED_TOTAL`].
pub open spec fn stored(skipped: Seq<SkippedView>, ratchet: Seq<u8>, pairs: Seq<(u32, Seq<u8>)>) -> Seq<SkippedView> {
    let appended = skipped + entries_for(ratchet, pairs);
    newest(evicted(appended, ratchet, excess_of(appended, ratchet)))
}

/// The bounds every kept-key list stays within.
pub open spec fn skipped_bounded(entries: Seq<SkippedView>) -> bool {
    &&& entries.len() <= MAX_SKIPPED_TOTAL
    &&& forall|ratchet: Seq<u8>| #[trigger] count_of(entries, ratchet) <= MAX_SKIP_PER_CHAIN
}

proof fn lemma_count_concat(first: Seq<SkippedView>, second: Seq<SkippedView>, ratchet: Seq<u8>)
    ensures
        count_of(first + second, ratchet) == count_of(first, ratchet) + count_of(second, ratchet),
    decreases second.len(),
{
    if second.len() > 0 {
        lemma_count_concat(first, second.drop_last(), ratchet);
        assert((first + second).drop_last() =~= first + second.drop_last());
    } else {
        assert(first + second =~= first);
    }
}

proof fn lemma_count_entries_for(owner: Seq<u8>, pairs: Seq<(u32, Seq<u8>)>, ratchet: Seq<u8>)
    ensures
        count_of(entries_for(owner, pairs), ratchet) == if owner == ratchet {
            pairs.len()
        } else {
            0
        },
    decreases pairs.len(),
{
    if pairs.len() > 0 {
        lemma_count_entries_for(owner, pairs.drop_last(), ratchet);
        assert(entries_for(owner, pairs).drop_last() =~= entries_for(owner, pairs.drop_last()));
    }
}

proof fn lemma_count_evicted(entries: Seq<SkippedView>, ratchet: Seq<u8>, excess: nat, other: Seq<u8>)
    ensures
        other != ratchet ==> count_of(evicted(entries, ratchet, excess), other) == count_of(
            entries,
            other,
        ),
        other == ratchet ==> count_of(evicted(entries, ratchet, excess), other) == count_of(
            entries,
            other,
        ) - if count_of(entries, ratchet) < excess {
            count_of(entries, ratchet)
        } else {
            excess
        },
        evicted(entries, ratchet, excess).len() <= entries.len(),
    decreases entries.len(),
{
    if entries.len() > 0 {
        lemma_count_evicted(entries.drop_last(), ratchet, excess, other);
        let rest = evicted(entries.drop_last(), ratchet, excess);
        assert(rest.push(entries.last()).drop_last() =~= rest);
    }
}

proof fn lemma_count_suffix(entries: Seq<SkippedView>, from: int, ratchet: Seq<u8>)
    requires
        0 <= from <= entries.len(),
    ensures
        count_of(entries.subrange(from, entries.len() as int), ratchet) <= count_of(entries, ratchet),
{
    lemma_count_concat(entries.subrange(0, from), entries.subrange(from, entries.len() as int), ratchet);
    assert(entries.subrange(0, from) + entries.subrange(from, entries.len() as int) =~= entries);
}

proof fn lemma_count_remove(entries: Seq<SkippedView>, index: int, ratchet: Seq<u8>)
    requires
        0 <= index < entries.len(),
    ensures
        count_of(entries.remove(index), ratchet) <= count_of(entries, ratchet),
{
    let before = entries.subrange(0, index);
    let after = entries.subrange(index + 1, entries.len() as int);
    lemma_count_concat(before, after, ratchet);
    lemma_count_concat(before, seq![entries[index]], ratchet);
    lemma_count_concat(before + seq![entries[index]], after, ratchet);
    assert(entries.remove(index) =~= before + after);
    assert(before + seq![entries[index]] + after =~= entries);
    assert(seq![entries[index]].drop_last() =~= Seq::<SkippedView>::empty());
}

/// Storing a chain's keys keeps the kept-key bounds.
proof fn lemma_stored_bounded(skipped: Seq<SkippedView>, ratchet: Seq<u8>, pairs: Seq<(u32, Seq<u8>)>)
    requires
        skipped_bounded(skipped),
    ensures
        skipped_bounded(stored(skipped, ratchet, pairs)),
{
    let appended = skipped + entries_for(ratchet, pairs);
    let excess = excess_of(appended, ratchet);
    let kept = evicted(appended, ratchet, excess);
    let result = stored(skipped, ratchet, pairs);
    assert forall|other: Seq<u8>| #[trigger] count_of(result, other) <= MAX_SKIP_PER_CHAIN by {
        lemma_count_concat(skipped, entries_for(ratchet, pairs), other);
        lemma_count_entries_for(ratchet, pairs, other);
        lemma_count_concat(skipped, entries_for(ratchet, pairs), ratchet);
        lemma_count_evicted(appended, ratchet, excess, other);
        if kept.len() > MAX_SKIPPED_TOTAL {
            lemma_count_suffix(kept, kept.len() - MAX_SKIPPED_TOTAL, other);
        }
    }
}

/// Removing one kept key keeps the kept-key bounds.
proof fn lemma_removed_bounded(skipped: Seq<SkippedView>, index: int)
    requires
        skipped_bounded(skipped),
        0 <= index < skipped.len(),
    ensures
        skipped_bounded(skipped.remove(index)),
{
    assert forall|other: Seq<u8>| #[trigger] count_of(skipped.remove(index), other)
        <= MAX_SKIP_PER_CHAIN by {
        lemma_count_remove(skipped, index, other);
    }
}

struct SkippedKey {
    ratchet: PublicKey,
    number: u32,
    key: KeyBytes,
}

impl SkippedKey {
    spec fn entry(self) -> SkippedView {
        SkippedView { ratchet: self.ratchet@, number: self.number, key: key_bytes_held(self.key) }
    }
}

/// The kept keys a queue of skipped keys holds, oldest first.
spec fn entries_of(queue: Seq<SkippedKey>) -> Seq<SkippedView> {
    queue.map_values(|skipped: SkippedKey| skipped.entry())
}

/// Message keys of frames that have not arrived yet, oldest first.
struct SkippedKeys(VecDeque<SkippedKey>);

impl SkippedKeys {
    spec fn entries(&self) -> Seq<SkippedView> {
        entries_of(self.0@)
    }

    fn new() -> (keys: Self)
        ensures
            keys.entries().len() == 0,
    {
        SkippedKeys(VecDeque::new())
    }

    fn position(&self, ratchet: &PublicKey, number: u32) -> (found: Option<usize>)
        ensures
            found matches Some(index) ==> index < self.entries().len() && is_key_for(
                self.entries()[index as int],
                ratchet@,
                number,
            ) && forall|earlier: int|
                0 <= earlier < index ==> !#[trigger] is_key_for(
                    self.entries()[earlier],
                    ratchet@,
                    number,
                ),
            found is None ==> forall|index: int|
                0 <= index < self.entries().len() ==> !#[trigger] is_key_for(
                    self.entries()[index],
                    ratchet@,
                    number,
                ),
    {
        let len = self.0.len();
        let mut index: usize = 0;
        while index < len
            invariant
                len == self.0@.len(),
                index <= len,
                forall|earlier: int|
                    0 <= earlier < index ==> !#[trigger] is_key_for(
                        self.entries()[earlier],
                        ratchet@,
                        number,
                    ),
            decreases len - index,
        {
            let skipped = &self.0[index];
            if skipped.ratchet.same_as(ratchet) && skipped.number == number {
                return Some(index);
            }
            index = index + 1;
        }
        None
    }

    fn key(&self, index: usize) -> (key: &KeyBytes)
        requires
            index < self.entries().len(),
        ensures
            key_bytes_held(*key) == self.entries()[index as int].key,
    {
        &self.0[index].key
    }

    fn remove(&mut self, index: usize)
        requires
            index < old(self).entries().len(),
        ensures
            final(self).entries() == old(self).entries().remove(index as int),
    {
        let ghost before = self.0@;
        let removed = self.0.remove(index);
        assert(entries_of(self.0@) =~= entries_of(before).remove(index as int));
    }

    fn extend(&mut self, ratchet: PublicKey, keys: VecDeque<(u32, KeyBytes)>)
        ensures
            final(self).entries() == stored(old(self).entries(), ratchet@, numbered_views(keys@)),
    {
        self.append(ratchet, keys);
        self.evict_oldest_of_chain(&ratchet);
        self.keep_newest();
    }

    fn append(&mut self, ratchet: PublicKey, keys: VecDeque<(u32, KeyBytes)>)
        ensures
            final(self).entries() == old(self).entries() + entries_for(ratchet@, numbered_views(keys@)),
    {
        let ghost added = entries_for(ratchet@, numbered_views(keys@));
        let ghost start = self.entries();
        let mut keys = keys;
        let ghost all_keys = keys@;
        while keys.len() > 0
            invariant
                all_keys.len() >= keys@.len(),
                keys@ == all_keys.subrange(all_keys.len() - keys@.len(), all_keys.len() as int),
                added == entries_for(ratchet@, numbered_views(all_keys)),
                self.entries() == start + added.subrange(0, all_keys.len() - keys@.len()),
            decreases keys@.len(),
        {
            let ghost remaining = keys@;
            match keys.pop_front() {
                Some((number, key)) => {
                    let ghost queued = self.0@;
                    self.0.push_back(SkippedKey { ratchet, number, key });
                    proof {
                        let done = all_keys.len() - remaining.len();
                        assert(all_keys[done] == remaining[0]);
                        assert(added[done] == SkippedKey { ratchet, number, key }.entry());
                        assert(entries_of(self.0@) =~= entries_of(queued).push(
                            SkippedKey { ratchet, number, key }.entry(),
                        ));
                        assert(added.subrange(0, done + 1) =~= added.subrange(0, done).push(
                            added[done],
                        ));
                        assert(keys@ =~= all_keys.subrange(
                            all_keys.len() - keys@.len(),
                            all_keys.len() as int,
                        ));
                    }
                },
                None => {},
            }
        }
        assert(added.subrange(0, added.len() as int) =~= added);
    }

    fn keep_newest(&mut self)
        ensures
            final(self).entries() == newest(old(self).entries()),
    {
        let ghost kept = self.entries();
        while self.0.len() > MAX_SKIPPED_TOTAL
            invariant
                kept.len() >= self.entries().len(),
                self.entries() == kept.subrange(
                    kept.len() - self.entries().len(),
                    kept.len() as int,
                ),
                kept.len() > MAX_SKIPPED_TOTAL ==> self.entries().len() >= MAX_SKIPPED_TOTAL,
                kept.len() <= MAX_SKIPPED_TOTAL ==> self.entries() == kept,
            decreases self.0@.len(),
        {
            let ghost queued = self.0@;
            let dropped = self.0.pop_front();
            assert(entries_of(self.0@) =~= entries_of(queued).subrange(1, queued.len() as int));
            assert(self.entries() =~= kept.subrange(kept.len() - self.entries().len(), kept.len() as int));
        }
        assert(self.entries() =~= newest(kept));
    }

    fn evict_oldest_of_chain(&mut self, ratchet: &PublicKey)
        ensures
            final(self).entries() == evicted(
                old(self).entries(),
                ratchet@,
                excess_of(old(self).entries(), ratchet@),
            ),
    {
        let ghost all = self.entries();
        let len = self.0.len();
        let mut in_chain: usize = 0;
        let mut index: usize = 0;
        while index < len
            invariant
                len == self.0@.len(),
                all == self.entries(),
                index <= len,
                in_chain == count_of(all.take(index as int), ratchet@),
                in_chain <= index,
            decreases len - index,
        {
            proof {
                assert(all.take(index + 1).drop_last() =~= all.take(index as int));
            }
            if self.0[index].ratchet.same_as(ratchet) {
                in_chain = in_chain + 1;
            }
            index = index + 1;
        }
        assert(all.take(len as int) =~= all);
        let excess: usize = if in_chain > MAX_SKIP_PER_CHAIN as usize {
            in_chain - MAX_SKIP_PER_CHAIN as usize
        } else {
            0
        };
        let mut kept: VecDeque<SkippedKey> = VecDeque::new();
        let mut seen: usize = 0;
        let mut queue = VecDeque::new();
        std::mem::swap(&mut queue, &mut self.0);
        let mut done: usize = 0;
        while queue.len() > 0
            invariant
                all.len() == len,
                done + queue@.len() == all.len(),
                entries_of(queue@) == all.subrange(done as int, all.len() as int),
                seen == count_of(all.take(done as int), ratchet@),
                seen <= done,
                excess == excess_of(all, ratchet@),
                entries_of(kept@) == evicted(all.take(done as int), ratchet@, excess as nat),
            decreases queue@.len(),
        {
            let ghost remaining = queue@;
            match queue.pop_front() {
                Some(skipped) => {
                    proof {
                        assert(all[done as int] == skipped.entry()) by {
                            assert(entries_of(remaining)[0] == skipped.entry());
                        }
                        assert(all.take(done + 1).drop_last() =~= all.take(done as int));
                        assert(queue@ == remaining.subrange(1, remaining.len() as int));
                        assert(entries_of(queue@) =~= entries_of(remaining).subrange(
                            1,
                            remaining.len() as int,
                        ));
                        assert(entries_of(queue@) =~= all.subrange(done + 1, all.len() as int));
                    }
                    let ours = skipped.ratchet.same_as(ratchet);
                    if ours && seen < excess {
                        seen = seen + 1;
                    } else {
                        if ours {
                            seen = seen + 1;
                        }
                        let ghost before = kept@;
                        kept.push_back(skipped);
                        assert(entries_of(kept@) =~= entries_of(before).push(all[done as int]));
                    }
                    done = done + 1;
                },
                None => {},
            }
        }
        assert(all.take(done as int) =~= all);
        self.0 = kept;
    }
}


/// The initiator's first state: one root step against the responder's
/// ratchet key gives its sending chain.
pub open spec fn initiator_state(shared_key: Seq<u8>, own: Seq<u8>, remote: Seq<u8>) -> SessionView {
    SessionView {
        root_key: next_root_key(shared_key, own, remote),
        own_ratchet: own,
        remote_ratchet: Some(remote),
        sending: Some(ChainView { key: root_chain_key(shared_key, own, remote), next: 0 }),
        receiving: None,
        previous_sending_len: 0,
        skipped: Seq::empty(),
    }
}

/// The responder's first state: the shared key as root key, no chains yet.
pub open spec fn responder_state(shared_key: Seq<u8>, signed_prekey: Seq<u8>) -> SessionView {
    SessionView {
        root_key: shared_key,
        own_ratchet: signed_prekey,
        remote_ratchet: None,
        sending: None,
        receiving: None,
        previous_sending_len: 0,
        skipped: Seq::empty(),
    }
}

/// Where a chain stands: its current key and the number of its next frame.
pub struct ChainView {
    pub key: Seq<u8>,
    pub next: u32,
}

/// Everything a session holds.
pub struct SessionView {
    pub root_key: Seq<u8>,
    pub own_ratchet: Seq<u8>,
    pub remote_ratchet: Option<Seq<u8>>,
    pub sending: Option<ChainView>,
    pub receiving: Option<ChainView>,
    pub previous_sending_len: u32,
    pub skipped: Seq<SkippedView>,
}

/// The bounds a session stays within in every state: no chain past
/// [`CHAIN_LIMIT`], no more than [`MAX_SKIP_PER_CHAIN`] kept keys per chain
/// and [`MAX_SKIPPED_TOTAL`] in all.
pub open spec fn session_bounded(session: SessionView) -> bool {
    &&& (session.sending matches Some(chain) ==> chain.next <= CHAIN_LIMIT)
    &&& (session.receiving matches Some(chain) ==> chain.next <= CHAIN_LIMIT)
    &&& skipped_bounded(session.skipped)
}

/// `session` with other kept keys.
pub open spec fn with_skipped(session: SessionView, skipped: Seq<SkippedView>) -> SessionView {
    SessionView {
        root_key: session.root_key,
        own_ratchet: session.own_ratchet,
        remote_ratchet: session.remote_ratchet,
        sending: session.sending,
        receiving: session.receiving,
        previous_sending_len: session.previous_sending_len,
        skipped,
    }
}

/// `session` with another receiving chain and other kept keys.
pub open spec fn with_receiving(session: SessionView, receiving: ChainView, skipped: Seq<SkippedView>) -> SessionView {
    SessionView {
        root_key: session.root_key,
        own_ratchet: session.own_ratchet,
        remote_ratchet: session.remote_ratchet,
        sending: session.sending,
        receiving: Some(receiving),
        previous_sending_len: session.previous_sending_len,
        skipped,
    }
}

/// `session` with another sending chain.
pub open spec fn with_sending(session: SessionView, sending: ChainView) -> SessionView {
    SessionView {
        root_key: session.root_key,
        own_ratchet: session.own_ratchet,
        remote_ratchet: session.remote_ratchet,
        sending: Some(sending),
        receiving: session.receiving,
        previous_sending_len: session.previous_sending_len,
        skipped: session.skipped,
    }
}

/// The frame a session sends for `plaintext` under `nonce`: the header of
/// its sending chain, then the plaintext sealed under that chain's message
/// key with the header as associated data.
pub open spec fn sent_frame(session: SessionView, nonce: Seq<u8>, plaintext: Seq<u8>) -> Seq<u8> {
    let chain = session.sending->Some_0;
    let header = header_bytes(
        x25519_public(session.own_ratchet),
        session.previous_sending_len,
        chain.next,
    );
    header + xchacha20_poly1305_seal(message_key_of(chain.key), nonce, header, plaintext)
}

/// Whether a session can send: it has a sending chain short of the limit.
pub open spec fn can_send(session: SessionView) -> bool {
    session.sending matches Some(chain) && chain.next < CHAIN_LIMIT
}

/// The session after sending one frame: its sending chain one step on.
pub open spec fn after_send(session: SessionView) -> SessionView {
    let chain = session.sending->Some_0;
    with_sending(session, ChainView { key: next_chain_key(chain.key), next: (chain.next + 1) as u32 })
}

/// Whether `index` is the first kept key for a frame of the chain of
/// `ratchet` numbered `number`.
pub open spec fn first_key_for(skipped: Seq<SkippedView>, ratchet: Seq<u8>, number: u32, index: int) -> bool {
    &&& 0 <= index < skipped.len()
    &&& is_key_for(skipped[index], ratchet, number)
    &&& forall|earlier: int| 0 <= earlier < index ==> !#[trigger] is_key_for(skipped[earlier], ratchet, number)
}

/// Whether some kept key is for that frame.
pub open spec fn has_key_for(skipped: Seq<SkippedView>, ratchet: Seq<u8>, number: u32) -> bool {
    exists|index: int| 0 <= index < skipped.len() && #[trigger] is_key_for(skipped[index], ratchet, number)
}

/// What opening with `key` gives: the plaintext and `next`, or the
/// authentication error and the session as it was.
pub open spec fn opened_with(
    key: Seq<u8>,
    nonce: Seq<u8>,
    frame: Seq<u8>,
    old: SessionView,
    next: SessionView,
    result: Result<Seq<u8>, Error>,
    new: SessionView,
) -> bool {
    match result {
        Ok(plaintext) => opens_to(key, nonce, frame, plaintext) && only_opening(
            key,
            nonce,
            frame,
            plaintext,
        ) && new == next,
        Err(error) => !opens(key, nonce, frame) && error == Error::Crypto(
            crate::crypto::Error::Authentication,
        ) && new == old,
    }
}

/// A frame opened with a kept key, which is then dropped.
pub open spec fn delivered_from_skipped(
    old: SessionView,
    nonce: Seq<u8>,
    frame: Seq<u8>,
    index: int,
    result: Result<Seq<u8>, Error>,
    new: SessionView,
) -> bool {
    opened_with(
        old.skipped[index].key,
        nonce,
        frame,
        old,
        with_skipped(old, old.skipped.remove(index)),
        result,
        new,
    )
}

/// A frame of the current receiving chain: the keys of the frames it skips
/// are kept, and the chain moves past it.
pub open spec fn delivered_in_chain(
    old: SessionView,
    nonce: Seq<u8>,
    frame: Seq<u8>,
    result: Result<Seq<u8>, Error>,
    new: SessionView,
) -> bool {
    let number = frame_message_number(frame);
    match old.receiving {
        None => result == Err::<Seq<u8>, Error>(
            Error::Crypto(crate::crypto::Error::Authentication),
        ) && new == old,
        Some(chain) => if number >= CHAIN_LIMIT {
            result == Err::<Seq<u8>, Error>(Error::TooFarAhead) && new == old
        } else if number < chain.next {
            result == Err::<Seq<u8>, Error>(Error::Crypto(crate::crypto::Error::Authentication))
                && new == old
        } else if number - chain.next > MAX_SKIP_PER_CHAIN {
            result == Err::<Seq<u8>, Error>(Error::TooFarAhead) && new == old
        } else {
            opened_with(
                message_key_after(chain.key, (number - chain.next) as nat),
                nonce,
                frame,
                old,
                with_receiving(
                    old,
                    ChainView {
                        key: chain_key_after(chain.key, (number + 1 - chain.next) as nat),
                        next: (number + 1) as u32,
                    },
                    stored(old.skipped, frame_ratchet(frame), chain_run(chain.key, chain.next, number)),
                ),
                result,
                new,
            )
        },
    }
}

/// Whether a frame's previous chain length asks to skip past a limit of the
/// current receiving chain.
pub open spec fn previous_too_far(old: SessionView, frame: Seq<u8>) -> bool {
    old.receiving matches Some(chain) && (frame_previous_chain_len(frame) > CHAIN_LIMIT
        || frame_previous_chain_len(frame) - chain.next > MAX_SKIP_PER_CHAIN)
}

/// The kept keys after the rest of the previous receiving chain is skipped.
pub open spec fn skipped_after_previous(old: SessionView, frame: Seq<u8>) -> Seq<SkippedView> {
    match (old.receiving, old.remote_ratchet) {
        (Some(chain), Some(remote)) => stored(
            old.skipped,
            remote,
            chain_run(chain.key, chain.next, frame_previous_chain_len(frame)),
        ),
        _ => old.skipped,
    }
}

/// The session after a DH ratchet step to the frame's ratchet key, with
/// `own` as its new ratchet key, having received that frame.
pub open spec fn after_step(old: SessionView, frame: Seq<u8>, own: Seq<u8>) -> SessionView {
    let remote = frame_ratchet(frame);
    let number = frame_message_number(frame);
    let root = next_root_key(old.root_key, old.own_ratchet, remote);
    let receiving = root_chain_key(old.root_key, old.own_ratchet, remote);
    SessionView {
        root_key: next_root_key(root, own, remote),
        own_ratchet: own,
        remote_ratchet: Some(remote),
        sending: Some(ChainView { key: root_chain_key(root, own, remote), next: 0 }),
        receiving: Some(
            ChainView { key: chain_key_after(receiving, (number + 1) as nat), next: (number + 1) as u32 },
        ),
        previous_sending_len: match old.sending {
            Some(chain) => chain.next,
            None => 0,
        },
        skipped: stored(skipped_after_previous(old, frame), remote, chain_run(receiving, 0, number)),
    }
}

/// A frame under a new ratchet key: the previous receiving chain is skipped
/// to its end, then two root steps give a receiving chain for the frame and a
/// sending chain under the fresh ratchet key `fresh`.
pub open spec fn delivered_after_step(
    old: SessionView,
    nonce: Seq<u8>,
    frame: Seq<u8>,
    fresh: Result<Seq<u8>, crate::crypto::Error>,
    result: Result<Seq<u8>, Error>,
    new: SessionView,
) -> bool {
    let remote = frame_ratchet(frame);
    let number = frame_message_number(frame);
    if previous_too_far(old, frame) {
        result == Err::<Seq<u8>, Error>(Error::TooFarAhead) && new == old
    } else if !dh_result_ok(old.own_ratchet, remote) {
        result == Err::<Seq<u8>, Error>(Error::Crypto(crate::crypto::Error::InvalidPublicKey))
            && new == old
    } else {
        match fresh {
            Err(error) => result == Err::<Seq<u8>, Error>(Error::Crypto(error)) && new == old,
            Ok(own) => if !dh_result_ok(own, remote) {
                result == Err::<Seq<u8>, Error>(
                    Error::Crypto(crate::crypto::Error::InvalidPublicKey),
                ) && new == old
            } else if number >= CHAIN_LIMIT || number > MAX_SKIP_PER_CHAIN {
                result == Err::<Seq<u8>, Error>(Error::TooFarAhead) && new == old
            } else {
                opened_with(
                    message_key_after(
                        root_chain_key(old.root_key, old.own_ratchet, remote),
                        number as nat,
                    ),
                    nonce,
                    frame,
                    old,
                    after_step(old, frame, own),
                    result,
                    new,
                )
            },
        }
    }
}

/// What receiving a frame does: with the first kept key for it if there is
/// one, else in the receiving chain if the frame carries the peer's current
/// ratchet key, else after a DH ratchet step.
pub open spec fn delivered(
    old: SessionView,
    nonce: Seq<u8>,
    frame: Seq<u8>,
    fresh: Result<Seq<u8>, crate::crypto::Error>,
    result: Result<Seq<u8>, Error>,
    new: SessionView,
) -> bool {
    let remote = frame_ratchet(frame);
    let number = frame_message_number(frame);
    if has_key_for(old.skipped, remote, number) {
        delivered_from_skipped(
            old,
            nonce,
            frame,
            choose|index: int| first_key_for(old.skipped, remote, number, index),
            result,
            new,
        )
    } else if old.remote_ratchet == Some(remote) {
        delivered_in_chain(old, nonce, frame, result, new)
    } else {
        delivered_after_step(old, nonce, frame, fresh, result, new)
    }
}

/// Whether a frame carries the zero point as its ratchet key and neither a
/// kept key nor the receiving chain applies to it, so that only a DH ratchet
/// step against that point could open it.
pub open spec fn zero_ratchet_step(old: SessionView, frame: Seq<u8>) -> bool {
    &&& x25519_zero_point(frame_ratchet(frame))
    &&& !has_key_for(old.skipped, frame_ratchet(frame), frame_message_number(frame))
    &&& old.remote_ratchet != Some(frame_ratchet(frame))
}

/// What the X25519 exchange of a DH ratchet step states of its result, for a
/// frame received after such a step: the fresh ratchet key agrees with the
/// peer's.
pub open spec fn step_agrees(
    old: SessionView,
    frame: Seq<u8>,
    fresh: Result<Seq<u8>, crate::crypto::Error>,
    result: Result<Seq<u8>, Error>,
) -> bool {
    let remote = frame_ratchet(frame);
    (result is Ok && !has_key_for(old.skipped, remote, frame_message_number(frame))
        && old.remote_ratchet != Some(remote)) ==> (fresh matches Ok(own) && dh_agrees(
        own,
        remote,
        x25519_function(own, remote),
    ))
}

/// The plaintext or error a receive gives, by the bytes it holds.
pub open spec fn opened_view(result: Result<SecretBuffer, Error>) -> Result<Seq<u8>, Error> {
    match result {
        Ok(plaintext) => Ok(secret_buffer_held(plaintext)),
        Err(error) => Err(error),
    }
}

/// The ratchet key, or the error, a key generation gave, by its bytes.
pub open spec fn fresh_view(fresh: Result<PrivateKey, crate::crypto::Error>) -> Result<Seq<u8>, crate::crypto::Error> {
    match fresh {
        Ok(key) => Ok(key@),
        Err(error) => Err(error),
    }
}

/// The ratchet key a receive was given, or the RNG's failure where none
/// was given and none drawn.
spec fn given_fresh(given: Option<Result<PrivateKey, crate::crypto::Error>>) -> Result<Seq<u8>, crate::crypto::Error> {
    match given {
        Some(next_ratchet) => fresh_view(next_ratchet),
        None => Err(crate::crypto::Error::Rng),
    }
}

/// What a ratchet key drawn from the RNG can be: 32 bytes, or the RNG's
/// failure.
pub open spec fn drawn_fresh(fresh: Result<Seq<u8>, crate::crypto::Error>) -> bool {
    &&& (fresh is Err ==> fresh == Err::<Seq<u8>, crate::crypto::Error>(crate::crypto::Error::Rng))
    &&& (fresh matches Ok(own) ==> own.len() == 32)
}

impl Chain {
    spec fn chain_view(self) -> ChainView {
        ChainView { key: self.key@, next: self.next }
    }

    fn start(key: KeyBytes) -> (chain: Self)
        ensures
            chain.key@ == key_bytes_held(key),
            chain.next == 0,
    {
        Chain { key: SecretKey::from_key_bytes(key), next: 0 }
    }
}

spec fn optional_chain(chain: Option<Chain>) -> Option<ChainView> {
    match chain {
        Some(chain) => Some(chain.chain_view()),
        None => None,
    }
}

/// One side of a Double Ratchet session.
pub struct Session {
    root_key: SecretKey,
    own_ratchet: PrivateKey,
    remote_ratchet: Option<PublicKey>,
    sending: Option<Chain>,
    receiving: Option<Chain>,
    previous_sending_len: u32,
    skipped: SkippedKeys,
}

impl View for Session {
    type V = SessionView;

    closed spec fn view(&self) -> SessionView {
        SessionView {
            root_key: self.root_key@,
            own_ratchet: self.own_ratchet@,
            remote_ratchet: match self.remote_ratchet {
                Some(key) => Some(key@),
                None => None,
            },
            sending: optional_chain(self.sending),
            receiving: optional_chain(self.receiving),
            previous_sending_len: self.previous_sending_len,
            skipped: self.skipped.entries(),
        }
    }
}

/// Returns the next root key and a new chain key.
fn kdf_root(root_key: &SecretKey, own: &PrivateKey, remote: &PublicKey) -> (result: Result<
    (SecretKey, KeyBytes),
    Error,
>)
    ensures
        result is Ok <==> dh_result_ok(own@, remote@),
        x25519_zero_point(remote@) ==> !dh_result_ok(own@, remote@),
        result is Err ==> result == Err::<(SecretKey, KeyBytes), Error>(
            Error::Crypto(crate::crypto::Error::InvalidPublicKey),
        ),
        result matches Ok(keys) ==> keys.0@ == next_root_key(root_key@, own@, remote@)
            && key_bytes_held(keys.1) == root_chain_key(root_key@, own@, remote@),
        result is Ok ==> dh_agrees(own@, remote@, x25519_function(own@, remote@)),
{
    let shared = match own.diffie_hellman(remote) {
        Ok(shared) => shared,
        Err(error) => return Err(Error::Crypto(error)),
    };
    let out = match hkdf_sha512(
        shared.expose_secret().as_slice(),
        root_key.expose_secret().as_slice(),
        ROOT_INFO.as_slice(),
        2 * KEY_LEN,
    ) {
        Ok(out) => out,
        Err(error) => return Err(Error::Crypto(error)),
    };
    let bytes = out.as_slice();
    let next_root = match SecretKey::from_slice(slice_subrange(bytes, 0, KEY_LEN)) {
        Ok(key) => key,
        Err(error) => return Err(Error::Crypto(error)),
    };
    let chain_key = KeyBytes::copy_of(slice_subrange(bytes, KEY_LEN, 2 * KEY_LEN));
    Ok((next_root, chain_key))
}

fn open(message_key: &KeyBytes, sealed: &SealedFrame) -> (result: Result<SecretBuffer, Error>)
    ensures
        result is Ok <==> opens(key_bytes_held(*message_key), sealed.nonce@, sealed.frame@),
        result is Err ==> result == Err::<SecretBuffer, Error>(
            Error::Crypto(crate::crypto::Error::Authentication),
        ),
        result matches Ok(plaintext) ==> opens_to(
            key_bytes_held(*message_key),
            sealed.nonce@,
            sealed.frame@,
            secret_buffer_held(plaintext),
        ) && secret_buffer_held(plaintext).len() == PLAINTEXT_LEN,
        result matches Ok(plaintext) ==> only_opening(
            key_bytes_held(*message_key),
            sealed.nonce@,
            sealed.frame@,
            secret_buffer_held(plaintext),
        ),
{
    let key = SecretKey::from_key_bytes(KeyBytes::copy_of(message_key.bytes().as_slice()));
    let header = slice_subrange(sealed.frame.as_slice(), 0, HEADER_LEN);
    let ciphertext = slice_subrange(sealed.frame.as_slice(), HEADER_LEN, FRAME_LEN);
    let opened = aead::open(&key, &sealed.nonce, header, ciphertext);
    proof {
        if opens(key_bytes_held(*message_key), sealed.nonce@, sealed.frame@) {
            let plaintext = choose|plaintext: Seq<u8>| #[trigger] opens_to(
                key_bytes_held(*message_key),
                sealed.nonce@,
                sealed.frame@,
                plaintext,
            );
            assert(xchacha20_poly1305_seal(key@, sealed.nonce@, header@, plaintext) == ciphertext@);
        }
        if opened is Ok {
            let plaintext = secret_buffer_held(opened->Ok_0);
            assert(opens_to(key_bytes_held(*message_key), sealed.nonce@, sealed.frame@, plaintext));
            assert forall|other: Seq<u8>| #[trigger] opens_to(
                key_bytes_held(*message_key),
                sealed.nonce@,
                sealed.frame@,
                other,
            ) implies other == plaintext by {
                assert(xchacha20_poly1305_seal(key@, sealed.nonce@, header@, other) == ciphertext@);
            }
        }
    }
    match opened {
        Ok(plaintext) => Ok(plaintext),
        Err(error) => Err(Error::Crypto(error)),
    }
}


impl Session {
    /// Starts the session of the X3DH initiator, whose first ratchet step is
    /// against the responder's signed prekey.
    ///
    /// # Errors
    /// [`crate::crypto::Error::InvalidPublicKey`] if `remote_ratchet` is a
    /// low-order point, and [`crate::crypto::Error::Rng`] if the RNG fails.
    pub fn initiator(shared_key: &SecretKey, remote_ratchet: PublicKey) -> (result: Result<Self, Error>)
        ensures
            result is Err ==> result == Err::<Self, Error>(Error::Crypto(crate::crypto::Error::Rng))
                || result == Err::<Self, Error>(
                Error::Crypto(crate::crypto::Error::InvalidPublicKey),
            ),
            x25519_zero_point(remote_ratchet@) ==> result is Err,
            result == Err::<Self, Error>(Error::Crypto(crate::crypto::Error::InvalidPublicKey))
                ==> exists|own: Seq<u8>| own.len() == 32 && !#[trigger] dh_result_ok(own, remote_ratchet@),
            result matches Ok(session) ==> session_bounded(session@) && exists|own: Seq<u8>|
                own.len() == 32 && #[trigger] dh_result_ok(own, remote_ratchet@) && dh_agrees(
                    own,
                    remote_ratchet@,
                    x25519_function(own, remote_ratchet@),
                ) && session@ == initiator_state(shared_key@, own, remote_ratchet@),
    {
        let own_ratchet = match PrivateKey::generate() {
            Ok(key) => key,
            Err(error) => return Err(Error::Crypto(error)),
        };
        Self::initiator_with(shared_key, remote_ratchet, own_ratchet)
    }

    /// The initiator's session with `own_ratchet` as its first ratchet key.
    ///
    /// # Errors
    /// [`crate::crypto::Error::InvalidPublicKey`] if `remote_ratchet` is a
    /// low-order point.
    pub fn initiator_with(shared_key: &SecretKey, remote_ratchet: PublicKey, own_ratchet: PrivateKey) -> (result:
        Result<Self, Error>)
        ensures
            result is Ok <==> dh_result_ok(own_ratchet@, remote_ratchet@),
            x25519_zero_point(remote_ratchet@) ==> result is Err,
            result is Err ==> result == Err::<Self, Error>(
                Error::Crypto(crate::crypto::Error::InvalidPublicKey),
            ),
            result matches Ok(session) ==> session@ == initiator_state(
                shared_key@,
                own_ratchet@,
                remote_ratchet@,
            ) && session_bounded(session@),
            result is Ok ==> dh_agrees(
                own_ratchet@,
                remote_ratchet@,
                x25519_function(own_ratchet@, remote_ratchet@),
            ),
    {
        let (root_key, sending) = match kdf_root(shared_key, &own_ratchet, &remote_ratchet) {
            Ok(keys) => keys,
            Err(error) => return Err(error),
        };
        let skipped = SkippedKeys::new();
        let session = Session {
            root_key,
            own_ratchet,
            remote_ratchet: Some(remote_ratchet),
            sending: Some(Chain::start(sending)),
            receiving: None,
            previous_sending_len: 0,
            skipped,
        };
        proof {
            assert(session@.skipped =~= Seq::<SkippedView>::empty());
            assert(skipped_bounded(session@.skipped)) by {
                assert forall|ratchet: Seq<u8>| #[trigger] count_of(session@.skipped, ratchet)
                    <= MAX_SKIP_PER_CHAIN by {}
            }
        }
        Ok(session)
    }

    /// Starts the session of the X3DH responder, whose signed prekey is its
    /// first ratchet key. It can send once it has received a frame.
    pub fn responder(shared_key: SecretKey, signed_prekey: PrivateKey) -> (session: Self)
        ensures
            session@ == responder_state(shared_key@, signed_prekey@),
            session_bounded(session@),
    {
        let skipped = SkippedKeys::new();
        let session = Session {
            root_key: shared_key,
            own_ratchet: signed_prekey,
            remote_ratchet: None,
            sending: None,
            receiving: None,
            previous_sending_len: 0,
            skipped,
        };
        proof {
            assert(session@.skipped =~= Seq::<SkippedView>::empty());
            assert(skipped_bounded(session@.skipped)) by {
                assert forall|ratchet: Seq<u8>| #[trigger] count_of(session@.skipped, ratchet)
                    <= MAX_SKIP_PER_CHAIN by {}
            }
        }
        session
    }

    /// Encrypts `plaintext` under the next message key and a fresh nonce.
    ///
    /// # Errors
    /// [`Error::SendingBlocked`] before the responder has received a frame or
    /// after 2 000 frames without a reply, and
    /// [`crate::crypto::Error::Rng`] if the RNG fails.
    pub fn encrypt(&mut self, plaintext: &[u8; PLAINTEXT_LEN]) -> (result: Result<SealedFrame, Error>)
        requires
            session_bounded(old(self)@),
        ensures
            session_bounded(final(self)@),
            result is Err ==> final(self)@ == old(self)@,
            result is Err && can_send(old(self)@) ==> result == Err::<SealedFrame, Error>(
                Error::Crypto(crate::crypto::Error::Rng),
            ),
            result is Err && !can_send(old(self)@) ==> result == Err::<SealedFrame, Error>(
                Error::Crypto(crate::crypto::Error::Rng),
            ) || result == Err::<SealedFrame, Error>(Error::SendingBlocked),
            result matches Ok(sealed) ==> can_send(old(self)@) && sealed.frame@ == sent_frame(
                old(self)@,
                sealed.nonce@,
                plaintext@,
            ) && final(self)@ == after_send(old(self)@),
    {
        let nonce = match Nonce::random() {
            Ok(nonce) => nonce,
            Err(error) => return Err(Error::Crypto(error)),
        };
        self.encrypt_with(nonce, plaintext)
    }

    /// Encrypts `plaintext` under the next message key and `nonce`.
    ///
    /// # Errors
    /// [`Error::SendingBlocked`] when there is no sending chain, or it has
    /// reached [`CHAIN_LIMIT`].
    pub fn encrypt_with(&mut self, nonce: Nonce, plaintext: &[u8; PLAINTEXT_LEN]) -> (result: Result<
        SealedFrame,
        Error,
    >)
        requires
            session_bounded(old(self)@),
        ensures
            session_bounded(final(self)@),
            result is Ok <==> can_send(old(self)@),
            result is Err ==> result == Err::<SealedFrame, Error>(Error::SendingBlocked)
                && final(self)@ == old(self)@,
            result matches Ok(sealed) ==> sealed.nonce == nonce && sealed.frame@ == sent_frame(
                old(self)@,
                nonce@,
                plaintext@,
            ) && final(self)@ == after_send(old(self)@),
    {
        let chain = match &self.sending {
            Some(chain) => chain,
            None => return Err(Error::SendingBlocked),
        };
        if chain.next >= CHAIN_LIMIT {
            return Err(Error::SendingBlocked);
        }
        let header = Header {
            ratchet: self.own_ratchet.public_key(),
            previous_chain_len: self.previous_sending_len,
            message_number: chain.next,
        }.to_bytes();
        let mut cursor = Cursor::at(chain);
        let message_key = SecretKey::from_key_bytes(cursor.next_message_key());
        let sealed = match aead::seal(&message_key, &nonce, header.as_slice(), plaintext.as_slice()) {
            Ok(sealed) => sealed,
            Err(error) => return Err(Error::Crypto(error)),
        };
        let mut frame = [0u8; FRAME_LEN];
        copy_into(&mut frame, 0, header.as_slice());
        copy_into(&mut frame, HEADER_LEN, sealed.as_slice());
        let ghost old_view = self@;
        self.sending = Some(cursor.into_chain());
        proof {
            assert(frame@ =~= sent_frame(old_view, nonce@, plaintext@));
            assert(self@ == after_send(old_view));
        }
        Ok(SealedFrame { nonce, frame })
    }
}


impl Session {
    /// Decrypts a frame from the peer, taking a DH ratchet step when it
    /// carries a new ratchet key.
    ///
    /// # Errors
    /// [`crate::crypto::Error::Authentication`] if the frame was forged or
    /// its key is gone, [`Error::TooFarAhead`] if it would skip too many keys,
    /// [`crate::crypto::Error::InvalidPublicKey`] if its ratchet key is a
    /// low-order point and [`crate::crypto::Error::Rng`] if the RNG fails.
    pub fn decrypt(&mut self, sealed: &SealedFrame) -> (result: Result<SecretBuffer, Error>)
        requires
            session_bounded(old(self)@),
        ensures
            session_bounded(final(self)@),
            result is Err ==> final(self)@ == old(self)@,
            zero_ratchet_step(old(self)@, sealed.frame@) ==> result is Err,
            result matches Ok(plaintext) ==> secret_buffer_held(plaintext).len() == PLAINTEXT_LEN,
            exists|fresh: Result<Seq<u8>, crate::crypto::Error>|
                drawn_fresh(fresh) && #[trigger] delivered(
                    old(self)@,
                    sealed.nonce@,
                    sealed.frame@,
                    fresh,
                    opened_view(result),
                    final(self)@,
                ) && step_agrees(old(self)@, sealed.frame@, fresh, opened_view(result)),
    {
        let (result, Ghost(fresh)) = self.receive(sealed, None);
        proof {
            assert(delivered(old(self)@, sealed.nonce@, sealed.frame@, fresh, opened_view(result), self@));
        }
        result
    }

    /// Decrypts a frame from the peer; `next_ratchet` is the ratchet key a
    /// DH ratchet step takes, or why there is none.
    ///
    /// # Errors
    /// As [`Session::decrypt`]; the error of `next_ratchet` when a ratchet
    /// step needs the key.
    pub fn decrypt_with(&mut self, sealed: &SealedFrame, next_ratchet: Result<PrivateKey, crate::crypto::Error>) -> (result:
        Result<SecretBuffer, Error>)
        requires
            session_bounded(old(self)@),
        ensures
            session_bounded(final(self)@),
            delivered(
                old(self)@,
                sealed.nonce@,
                sealed.frame@,
                fresh_view(next_ratchet),
                opened_view(result),
                final(self)@,
            ),
            step_agrees(old(self)@, sealed.frame@, fresh_view(next_ratchet), opened_view(result)),
            result is Err ==> final(self)@ == old(self)@,
            zero_ratchet_step(old(self)@, sealed.frame@) ==> result is Err,
            result matches Ok(plaintext) ==> secret_buffer_held(plaintext).len() == PLAINTEXT_LEN,
    {
        let (result, Ghost(_fresh)) = self.receive(sealed, Some(next_ratchet));
        result
    }

    /// A receive whose ratchet key, should a DH ratchet step need one, is
    /// `given` or else drawn from the RNG at that point; the second part of
    /// the result is that key, or why there is none.
    fn receive(&mut self, sealed: &SealedFrame, given: Option<Result<PrivateKey, crate::crypto::Error>>) -> (out: (
        Result<SecretBuffer, Error>,
        Ghost<Result<Seq<u8>, crate::crypto::Error>>,
    ))
        requires
            session_bounded(old(self)@),
        ensures
            session_bounded(final(self)@),
            given matches Some(next_ratchet) ==> out.1@ == fresh_view(next_ratchet),
            given is None ==> drawn_fresh(out.1@),
            delivered(old(self)@, sealed.nonce@, sealed.frame@, out.1@, opened_view(out.0), final(self)@),
            step_agrees(old(self)@, sealed.frame@, out.1@, opened_view(out.0)),
            out.0 is Err ==> final(self)@ == old(self)@,
            zero_ratchet_step(old(self)@, sealed.frame@) ==> out.0 is Err,
            out.0 matches Ok(plaintext) ==> secret_buffer_held(plaintext).len() == PLAINTEXT_LEN,
    {
        let ghost unused = given_fresh(given);
        let header = Header::parse(&sealed.frame);
        let ghost remote = frame_ratchet(sealed.frame@);
        let ghost number = frame_message_number(sealed.frame@);
        match self.skipped.position(&header.ratchet, header.message_number) {
            Some(index) => {
                proof {
                    let chosen = choose|index: int| first_key_for(self@.skipped, remote, number, index);
                    assert(first_key_for(self@.skipped, remote, number, index as int));
                    assert(has_key_for(self@.skipped, remote, number));
                    if chosen < index {
                        assert(!is_key_for(self@.skipped[chosen], remote, number));
                    }
                    if chosen > index {
                        assert(!is_key_for(self@.skipped[index as int], remote, number));
                    }
                    assert(chosen == index);
                }
                let plaintext = match open(self.skipped.key(index), sealed) {
                    Ok(plaintext) => plaintext,
                    Err(error) => return (Err(error), Ghost(unused)),
                };
                let ghost old_view = self@;
                self.skipped.remove(index);
                proof {
                    lemma_removed_bounded(old_view.skipped, index as int);
                    assert(self@ == with_skipped(old_view, old_view.skipped.remove(index as int)));
                }
                return (Ok(plaintext), Ghost(unused));
            },
            None => {},
        }
        let in_chain = match &self.remote_ratchet {
            Some(current) => current.same_as(&header.ratchet),
            None => false,
        };
        if in_chain {
            (self.decrypt_in_receiving_chain(&header, sealed), Ghost(unused))
        } else {
            self.decrypt_after_ratchet_step(&header, sealed, given)
        }
    }

    fn decrypt_in_receiving_chain(&mut self, header: &Header, sealed: &SealedFrame) -> (result: Result<
        SecretBuffer,
        Error,
    >)
        requires
            session_bounded(old(self)@),
            header.ratchet@ == frame_ratchet(sealed.frame@),
            header.message_number == frame_message_number(sealed.frame@),
        ensures
            session_bounded(final(self)@),
            delivered_in_chain(old(self)@, sealed.nonce@, sealed.frame@, opened_view(result), final(self)@),
            result matches Ok(plaintext) ==> secret_buffer_held(plaintext).len() == PLAINTEXT_LEN,
    {
        let chain = match &self.receiving {
            Some(chain) => chain,
            None => return Err(Error::Crypto(crate::crypto::Error::Authentication)),
        };
        let ghost start = chain.chain_view();
        let mut cursor = Cursor::at(chain);
        let key = match cursor.message_key(header.message_number) {
            Ok(key) => key,
            Err(error) => return Err(error),
        };
        let plaintext = match open(&key, sealed) {
            Ok(plaintext) => plaintext,
            Err(error) => return Err(error),
        };
        let ghost old_view = self@;
        let skipped = cursor.take_skipped();
        proof {
            assert(numbered_views(skipped@) =~= chain_run(start.key, start.next, header.message_number));
            lemma_stored_bounded(old_view.skipped, header.ratchet@, numbered_views(skipped@));
        }
        self.skipped.extend(header.ratchet, skipped);
        self.receiving = Some(cursor.into_chain());
        proof {
            assert(self@ == with_receiving(
                old_view,
                ChainView {
                    key: chain_key_after(start.key, (header.message_number + 1 - start.next) as nat),
                    next: (header.message_number + 1) as u32,
                },
                stored(old_view.skipped, header.ratchet@, chain_run(start.key, start.next, header.message_number)),
            ));
        }
        Ok(plaintext)
    }

    /// The DH ratchet step of a receive. The new ratchet key is `given`, or
    /// is drawn from the RNG once the step needs it: after the previous chain
    /// is skipped to its end and the first root step succeeds.
    fn decrypt_after_ratchet_step(
        &mut self,
        header: &Header,
        sealed: &SealedFrame,
        given: Option<Result<PrivateKey, crate::crypto::Error>>,
    ) -> (out: (Result<SecretBuffer, Error>, Ghost<Result<Seq<u8>, crate::crypto::Error>>))
        requires
            session_bounded(old(self)@),
            header.ratchet@ == frame_ratchet(sealed.frame@),
            header.previous_chain_len == frame_previous_chain_len(sealed.frame@),
            header.message_number == frame_message_number(sealed.frame@),
        ensures
            session_bounded(final(self)@),
            given matches Some(next_ratchet) ==> out.1@ == fresh_view(next_ratchet),
            given is None ==> drawn_fresh(out.1@),
            delivered_after_step(
                old(self)@,
                sealed.nonce@,
                sealed.frame@,
                out.1@,
                opened_view(out.0),
                final(self)@,
            ),
            x25519_zero_point(frame_ratchet(sealed.frame@)) ==> out.0 is Err,
            out.0 is Ok ==> (out.1@ matches Ok(own) && dh_agrees(
                own,
                frame_ratchet(sealed.frame@),
                x25519_function(own, frame_ratchet(sealed.frame@)),
            )),
            out.0 matches Ok(plaintext) ==> secret_buffer_held(plaintext).len() == PLAINTEXT_LEN,
    {
        let ghost unused = given_fresh(given);
        let ghost old_view = self@;
        let previous: Option<Cursor> = match &self.receiving {
            Some(chain) => {
                let mut cursor = Cursor::at(chain);
                match cursor.skip_to(header.previous_chain_len) {
                    Ok(()) => {},
                    Err(error) => return (Err(error), Ghost(unused)),
                }
                Some(cursor)
            },
            None => None,
        };
        let (root_key, receiving) = match kdf_root(&self.root_key, &self.own_ratchet, &header.ratchet) {
            Ok(keys) => keys,
            Err(error) => return (Err(error), Ghost(unused)),
        };
        let drawn = match given {
            Some(next_ratchet) => next_ratchet,
            None => PrivateKey::generate(),
        };
        let ghost fresh = fresh_view(drawn);
        let own_ratchet = match drawn {
            Ok(key) => key,
            Err(error) => return (Err(Error::Crypto(error)), Ghost(fresh)),
        };
        let (root_key, sending) = match kdf_root(&root_key, &own_ratchet, &header.ratchet) {
            Ok(keys) => keys,
            Err(error) => return (Err(error), Ghost(fresh)),
        };
        let ghost receiving_key = key_bytes_held(receiving);
        let mut cursor = Cursor::new(receiving);
        let key = match cursor.message_key(header.message_number) {
            Ok(key) => key,
            Err(error) => return (Err(error), Ghost(fresh)),
        };
        let plaintext = match open(&key, sealed) {
            Ok(plaintext) => plaintext,
            Err(error) => return (Err(error), Ghost(fresh)),
        };
        match previous {
            Some(mut previous) => match &self.remote_ratchet {
                Some(remote) => {
                    let remote = *remote;
                    let skipped = previous.take_skipped();
                    proof {
                        let chain = old_view.receiving->Some_0;
                        assert(numbered_views(skipped@) =~= chain_run(
                            chain.key,
                            chain.next,
                            header.previous_chain_len,
                        ));
                        lemma_stored_bounded(old_view.skipped, remote@, numbered_views(skipped@));
                    }
                    self.skipped.extend(remote, skipped);
                },
                None => {},
            },
            None => {},
        }
        assert(self.skipped.entries() == skipped_after_previous(old_view, sealed.frame@));
        let skipped = cursor.take_skipped();
        proof {
            assert(numbered_views(skipped@) =~= chain_run(receiving_key, 0, header.message_number));
            lemma_stored_bounded(self.skipped.entries(), header.ratchet@, numbered_views(skipped@));
        }
        self.skipped.extend(header.ratchet, skipped);
        self.root_key = root_key;
        self.own_ratchet = own_ratchet;
        self.remote_ratchet = Some(header.ratchet);
        self.previous_sending_len = match &self.sending {
            Some(chain) => chain.next,
            None => 0,
        };
        self.sending = Some(Chain::start(sending));
        self.receiving = Some(cursor.into_chain());
        proof {
            assert(self@ == after_step(old_view, sealed.frame@, own_ratchet@));
        }
        (Ok(plaintext), Ghost(fresh))
    }
}


/// A frame reads back the header it was written with, whatever follows the
/// header: the ratchet key, then both numbers little-endian.
pub proof fn lemma_frame_header(ratchet: Seq<u8>, previous_chain_len: u32, message_number: u32, body: Seq<u8>)
    requires
        ratchet.len() == 32,
    ensures
        ({
            let frame = header_bytes(ratchet, previous_chain_len, message_number) + body;
            &&& frame_ratchet(frame) == ratchet
            &&& frame_previous_chain_len(frame) == previous_chain_len
            &&& frame_message_number(frame) == message_number
            &&& frame.subrange(0, HEADER_LEN as int) == header_bytes(
                ratchet,
                previous_chain_len,
                message_number,
            )
            &&& frame.subrange(HEADER_LEN as int, frame.len() as int) == body
        }),
{
    lemma_auto_spec_u32_to_from_le_bytes();
    let header = header_bytes(ratchet, previous_chain_len, message_number);
    let frame = header + body;
    assert(frame.subrange(0, 32) =~= ratchet);
    assert(frame.subrange(32, 36) =~= spec_u32_to_le_bytes(previous_chain_len));
    assert(frame.subrange(36, 40) =~= spec_u32_to_le_bytes(message_number));
    assert(frame.subrange(0, HEADER_LEN as int) =~= header);
    assert(frame.subrange(HEADER_LEN as int, frame.len() as int) =~= body);
}

/// A frame that the sender sent opens to its plaintext, and to nothing else,
/// under the message key it was sealed with.
proof fn lemma_sent_frame_opens(sender: SessionView, nonce: Seq<u8>, plaintext: Seq<u8>, key: Seq<u8>, result: Result<Seq<u8>, Error>, old: SessionView, next: SessionView, new: SessionView)
    requires
        can_send(sender),
        x25519_public(sender.own_ratchet).len() == 32,
        plaintext.len() == PLAINTEXT_LEN,
        sent_frame(sender, nonce, plaintext).len() == FRAME_LEN,
        key == message_key_of(sender.sending->Some_0.key),
        opened_with(key, nonce, sent_frame(sender, nonce, plaintext), old, next, result, new),
    ensures
        result == Ok::<Seq<u8>, Error>(plaintext),
        new == next,
{
    let frame = sent_frame(sender, nonce, plaintext);
    let chain = sender.sending->Some_0;
    let header = header_bytes(x25519_public(sender.own_ratchet), sender.previous_sending_len, chain.next);
    lemma_frame_header(
        x25519_public(sender.own_ratchet),
        sender.previous_sending_len,
        chain.next,
        xchacha20_poly1305_seal(key, nonce, header, plaintext),
    );
    assert(opens_to(key, nonce, frame, plaintext));
}

/// A frame sent in a chain opens to its plaintext at a receiver that
/// follows that chain and has not passed the frame yet, provided the frame is
/// no more than [`MAX_SKIP_PER_CHAIN`] ahead and no kept key is for it.
pub proof fn lemma_in_chain_frame_opens(
    sender: SessionView,
    nonce: Seq<u8>,
    plaintext: Seq<u8>,
    receiver: SessionView,
    fresh: Result<Seq<u8>, crate::crypto::Error>,
    result: Result<Seq<u8>, Error>,
    new: SessionView,
)
    requires
        can_send(sender),
        x25519_public(sender.own_ratchet).len() == 32,
        plaintext.len() == PLAINTEXT_LEN,
        sent_frame(sender, nonce, plaintext).len() == FRAME_LEN,
        receiver.remote_ratchet == Some(x25519_public(sender.own_ratchet)),
        receiver.receiving matches Some(chain) && {
            let sent = sender.sending->Some_0;
            &&& chain.next <= sent.next
            &&& sent.next - chain.next <= MAX_SKIP_PER_CHAIN
            &&& sent.key == chain_key_after(chain.key, (sent.next - chain.next) as nat)
        },
        !has_key_for(
            receiver.skipped,
            x25519_public(sender.own_ratchet),
            sender.sending->Some_0.next,
        ),
        delivered(receiver, nonce, sent_frame(sender, nonce, plaintext), fresh, result, new),
    ensures
        result == Ok::<Seq<u8>, Error>(plaintext),
{
    let frame = sent_frame(sender, nonce, plaintext);
    let sent = sender.sending->Some_0;
    let header = header_bytes(x25519_public(sender.own_ratchet), sender.previous_sending_len, sent.next);
    lemma_frame_header(
        x25519_public(sender.own_ratchet),
        sender.previous_sending_len,
        sent.next,
        xchacha20_poly1305_seal(message_key_of(sent.key), nonce, header, plaintext),
    );
    let chain = receiver.receiving->Some_0;
    let next = with_receiving(
        receiver,
        ChainView {
            key: chain_key_after(chain.key, (sent.next + 1 - chain.next) as nat),
            next: (sent.next + 1) as u32,
        },
        stored(receiver.skipped, frame_ratchet(frame), chain_run(chain.key, chain.next, sent.next)),
    );
    lemma_sent_frame_opens(sender, nonce, plaintext, message_key_of(sent.key), result, receiver, next, new);
}

/// A frame that arrives after later ones opens to its plaintext with the key
/// the receiver kept for it: when the first kept key for the frame's ratchet
/// key and number is the message key the sender sealed it under.
pub proof fn lemma_skipped_frame_opens(
    sender: SessionView,
    nonce: Seq<u8>,
    plaintext: Seq<u8>,
    receiver: SessionView,
    index: int,
    fresh: Result<Seq<u8>, crate::crypto::Error>,
    result: Result<Seq<u8>, Error>,
    new: SessionView,
)
    requires
        can_send(sender),
        x25519_public(sender.own_ratchet).len() == 32,
        plaintext.len() == PLAINTEXT_LEN,
        sent_frame(sender, nonce, plaintext).len() == FRAME_LEN,
        first_key_for(
            receiver.skipped,
            x25519_public(sender.own_ratchet),
            sender.sending->Some_0.next,
            index,
        ),
        receiver.skipped[index].key == message_key_of(sender.sending->Some_0.key),
        delivered(receiver, nonce, sent_frame(sender, nonce, plaintext), fresh, result, new),
    ensures
        result == Ok::<Seq<u8>, Error>(plaintext),
        new == with_skipped(receiver, receiver.skipped.remove(index)),
{
    let frame = sent_frame(sender, nonce, plaintext);
    let sent = sender.sending->Some_0;
    let remote = x25519_public(sender.own_ratchet);
    let header = header_bytes(remote, sender.previous_sending_len, sent.next);
    lemma_frame_header(
        remote,
        sender.previous_sending_len,
        sent.next,
        xchacha20_poly1305_seal(message_key_of(sent.key), nonce, header, plaintext),
    );
    assert(has_key_for(receiver.skipped, remote, sent.next));
    let chosen = choose|chosen: int| first_key_for(receiver.skipped, remote, sent.next, chosen);
    if chosen < index {
        assert(!is_key_for(receiver.skipped[chosen], remote, sent.next));
    }
    if chosen > index {
        assert(!is_key_for(receiver.skipped[index], remote, sent.next));
    }
    assert(chosen == index);
    lemma_sent_frame_opens(
        sender,
        nonce,
        plaintext,
        message_key_of(sent.key),
        result,
        receiver,
        with_skipped(receiver, receiver.skipped.remove(index)),
        new,
    );
}

/// A frame from the peer's first chain under a new ratchet key opens to its
/// plaintext after the receiver's DH ratchet step, when the peer derived that
/// chain from the receiver's root key and the receiver's ratchet key.
///
/// This is how a session started by X3DH receives its first frames, and how
/// each party receives the first frames of the other's reply.
pub proof fn lemma_new_chain_frame_opens(
    sender: SessionView,
    nonce: Seq<u8>,
    plaintext: Seq<u8>,
    receiver: SessionView,
    fresh: Result<Seq<u8>, crate::crypto::Error>,
    result: Result<Seq<u8>, Error>,
    new: SessionView,
)
    requires
        can_send(sender),
        sender.own_ratchet.len() == 32,
        receiver.own_ratchet.len() == 32,
        x25519_public(sender.own_ratchet).len() == 32,
        plaintext.len() == PLAINTEXT_LEN,
        sent_frame(sender, nonce, plaintext).len() == FRAME_LEN,
        receiver.remote_ratchet != Some(x25519_public(sender.own_ratchet)),
        dh_agrees(
            sender.own_ratchet,
            x25519_public(receiver.own_ratchet),
            x25519_function(sender.own_ratchet, x25519_public(receiver.own_ratchet)),
        ),
        dh_result_ok(sender.own_ratchet, x25519_public(receiver.own_ratchet)),
        sender.sending->Some_0.next <= MAX_SKIP_PER_CHAIN,
        sender.sending->Some_0.key == chain_key_after(
            root_chain_key(
                receiver.root_key,
                sender.own_ratchet,
                x25519_public(receiver.own_ratchet),
            ),
            sender.sending->Some_0.next as nat,
        ),
        !previous_too_far(receiver, sent_frame(sender, nonce, plaintext)),
        !has_key_for(
            receiver.skipped,
            x25519_public(sender.own_ratchet),
            sender.sending->Some_0.next,
        ),
        fresh matches Ok(own) && dh_result_ok(own, x25519_public(sender.own_ratchet)),
        delivered(receiver, nonce, sent_frame(sender, nonce, plaintext), fresh, result, new),
    ensures
        result == Ok::<Seq<u8>, Error>(plaintext),
{
    let frame = sent_frame(sender, nonce, plaintext);
    let sent = sender.sending->Some_0;
    let remote = x25519_public(sender.own_ratchet);
    let header = header_bytes(remote, sender.previous_sending_len, sent.next);
    lemma_frame_header(
        remote,
        sender.previous_sending_len,
        sent.next,
        xchacha20_poly1305_seal(message_key_of(sent.key), nonce, header, plaintext),
    );
    assert(x25519_function(receiver.own_ratchet, remote) == x25519_function(
        sender.own_ratchet,
        x25519_public(receiver.own_ratchet),
    ));
    assert(root_chain_key(receiver.root_key, receiver.own_ratchet, remote) == root_chain_key(
        receiver.root_key,
        sender.own_ratchet,
        x25519_public(receiver.own_ratchet),
    ));
    let own = fresh->Ok_0;
    lemma_sent_frame_opens(
        sender,
        nonce,
        plaintext,
        message_key_of(sent.key),
        result,
        receiver,
        after_step(receiver, frame, own),
        new,
    );
}

/// The first frame of a session started by X3DH opens at the responder:
/// the initiator's first chain comes from the shared key and its ratchet key
/// against the responder's signed prekey.
pub proof fn lemma_first_frame_opens(
    shared_key: Seq<u8>,
    initiator_ratchet: Seq<u8>,
    signed_prekey: Seq<u8>,
    nonce: Seq<u8>,
    plaintext: Seq<u8>,
    fresh: Result<Seq<u8>, crate::crypto::Error>,
    result: Result<Seq<u8>, Error>,
    new: SessionView,
)
    requires
        initiator_ratchet.len() == 32,
        signed_prekey.len() == 32,
        x25519_public(initiator_ratchet).len() == 32,
        dh_agrees(
            initiator_ratchet,
            x25519_public(signed_prekey),
            x25519_function(initiator_ratchet, x25519_public(signed_prekey)),
        ),
        dh_result_ok(initiator_ratchet, x25519_public(signed_prekey)),
        plaintext.len() == PLAINTEXT_LEN,
        sent_frame(
            initiator_state(shared_key, initiator_ratchet, x25519_public(signed_prekey)),
            nonce,
            plaintext,
        ).len() == FRAME_LEN,
        fresh matches Ok(own) && dh_result_ok(own, x25519_public(initiator_ratchet)),
        delivered(
            responder_state(shared_key, signed_prekey),
            nonce,
            sent_frame(
                initiator_state(shared_key, initiator_ratchet, x25519_public(signed_prekey)),
                nonce,
                plaintext,
            ),
            fresh,
            result,
            new,
        ),
    ensures
        result == Ok::<Seq<u8>, Error>(plaintext),
{
    let sender = initiator_state(shared_key, initiator_ratchet, x25519_public(signed_prekey));
    let receiver = responder_state(shared_key, signed_prekey);
    assert(!has_key_for(receiver.skipped, x25519_public(initiator_ratchet), 0));
    lemma_new_chain_frame_opens(sender, nonce, plaintext, receiver, fresh, result, new);
}

/// The responder's first reply opens at the initiator: after the responder
/// received a frame under the initiator's ratchet key and stepped to a fresh
/// key of its own, both derive the reply's chain from the same root key and
/// the same Diffie-Hellman value.
///
/// With [`lemma_first_frame_opens`], a session started by X3DH exchanges its
/// first frames both ways.
pub proof fn lemma_first_reply_opens(
    shared_key: Seq<u8>,
    initiator: SessionView,
    signed_prekey: Seq<u8>,
    first_nonce: Seq<u8>,
    first_frame: Seq<u8>,
    responder_fresh: Result<Seq<u8>, crate::crypto::Error>,
    first_plaintext: Seq<u8>,
    responder: SessionView,
    nonce: Seq<u8>,
    plaintext: Seq<u8>,
    fresh: Result<Seq<u8>, crate::crypto::Error>,
    result: Result<Seq<u8>, Error>,
    new: SessionView,
)
    requires
        initiator.own_ratchet.len() == 32,
        signed_prekey.len() == 32,
        x25519_public(initiator.own_ratchet).len() == 32,
        initiator.root_key == next_root_key(
            shared_key,
            initiator.own_ratchet,
            x25519_public(signed_prekey),
        ),
        initiator.remote_ratchet == Some(x25519_public(signed_prekey)),
        initiator.receiving is None,
        initiator.skipped.len() == 0,
        dh_agrees(
            initiator.own_ratchet,
            x25519_public(signed_prekey),
            x25519_function(initiator.own_ratchet, x25519_public(signed_prekey)),
        ),
        frame_ratchet(first_frame) == x25519_public(initiator.own_ratchet),
        responder_fresh matches Ok(own) && own.len() == 32 && x25519_public(own).len() == 32
            && x25519_public(own) != x25519_public(signed_prekey),
        delivered(
            responder_state(shared_key, signed_prekey),
            first_nonce,
            first_frame,
            responder_fresh,
            Ok::<Seq<u8>, Error>(first_plaintext),
            responder,
        ),
        step_agrees(
            responder_state(shared_key, signed_prekey),
            first_frame,
            responder_fresh,
            Ok::<Seq<u8>, Error>(first_plaintext),
        ),
        plaintext.len() == PLAINTEXT_LEN,
        sent_frame(responder, nonce, plaintext).len() == FRAME_LEN,
        fresh matches Ok(own) && dh_result_ok(own, x25519_public(responder.own_ratchet)),
        delivered(initiator, nonce, sent_frame(responder, nonce, plaintext), fresh, result, new),
    ensures
        result == Ok::<Seq<u8>, Error>(plaintext),
{
    let start = responder_state(shared_key, signed_prekey);
    let remote = x25519_public(initiator.own_ratchet);
    let own = responder_fresh->Ok_0;
    assert(!has_key_for(start.skipped, remote, frame_message_number(first_frame)));
    assert(responder == after_step(start, first_frame, own));
    assert(x25519_function(signed_prekey, remote) == x25519_function(
        initiator.own_ratchet,
        x25519_public(signed_prekey),
    ));
    assert(next_root_key(shared_key, signed_prekey, remote) == initiator.root_key);
    assert(chain_key_after(root_chain_key(initiator.root_key, own, remote), 0) == root_chain_key(
        initiator.root_key,
        own,
        remote,
    ));
    assert(!has_key_for(initiator.skipped, x25519_public(own), 0));
    lemma_new_chain_frame_opens(responder, nonce, plaintext, initiator, fresh, result, new);
}

/// Whether `sender`'s sending chain, and its root key, come from a DH
/// ratchet step it took from `receiver`'s root key against `receiver`'s
/// ratchet key: what the receiver needs to open that chain's frames after a
/// step of its own.
pub open spec fn follows(sender: SessionView, receiver: SessionView) -> bool {
    let peer = x25519_public(receiver.own_ratchet);
    &&& sender.remote_ratchet == Some(peer)
    &&& sender.root_key == next_root_key(receiver.root_key, sender.own_ratchet, peer)
    &&& sender.sending matches Some(chain)
    &&& chain.key == chain_key_after(
        root_chain_key(receiver.root_key, sender.own_ratchet, peer),
        chain.next as nat,
    )
}

/// Whether `receiver` receives `sender`'s current chain, not yet past the
/// frame the sender would send next.
pub open spec fn tracks(receiver: SessionView, sender: SessionView) -> bool {
    &&& receiver.remote_ratchet == Some(x25519_public(sender.own_ratchet))
    &&& receiver.receiving matches Some(chain)
    &&& sender.sending matches Some(sent)
    &&& chain.next <= sent.next
    &&& sent.key == chain_key_after(chain.key, (sent.next - chain.next) as nat)
}

/// Chain keys compose: `a` steps then `b` steps are `a + b` steps.
pub proof fn lemma_chain_steps_compose(chain_key: Seq<u8>, a: nat, b: nat)
    ensures
        chain_key_after(chain_key_after(chain_key, a), b) == chain_key_after(chain_key, a + b),
    decreases b,
{
    if b > 0 {
        lemma_chain_steps_compose(chain_key, a, (b - 1) as nat);
        assert(chain_key_after(chain_key, (a + b) as nat) == next_chain_key(
            chain_key_after(chain_key, (a + b - 1) as nat),
        ));
    }
}

/// Sessions started from one shared key, the initiator's ratchet step taken
/// against the responder's signed prekey, start in step: the initiator
/// follows the responder.
pub proof fn lemma_sessions_start_in_step(shared_key: Seq<u8>, initiator_ratchet: Seq<u8>, signed_prekey: Seq<u8>)
    ensures
        follows(
            initiator_state(shared_key, initiator_ratchet, x25519_public(signed_prekey)),
            responder_state(shared_key, signed_prekey),
        ),
{
}

/// Sending keeps a sender following its receiver.
pub proof fn lemma_sending_keeps_following(sender: SessionView, receiver: SessionView)
    requires
        follows(sender, receiver),
        can_send(sender),
    ensures
        follows(after_send(sender), receiver),
{
}

/// The session after `count` frames are sent.
pub open spec fn after_sends(session: SessionView, count: nat) -> SessionView
    decreases count,
{
    if count == 0 {
        session
    } else {
        after_send(after_sends(session, (count - 1) as nat))
    }
}

/// A sending chain seals at most [`CHAIN_LIMIT`] frames: from a chain at its
/// start, each of the first [`CHAIN_LIMIT`] sends is allowed and the next is
/// not, and whatever was sent, a DH ratchet step on a frame from the peer
/// starts a sending chain at its start again.
pub proof fn lemma_sending_stops_at_the_chain_limit(
    session: SessionView,
    count: nat,
    frame: Seq<u8>,
    own: Seq<u8>,
)
    requires
        session.sending is Some,
        session.sending->Some_0.next == 0,
        count <= CHAIN_LIMIT,
    ensures
        after_sends(session, count).sending is Some,
        after_sends(session, count).sending->Some_0.next == count,
        can_send(after_sends(session, count)) <==> count < CHAIN_LIMIT,
        can_send(after_step(after_sends(session, count), frame, own)),
        after_step(after_sends(session, count), frame, own).sending->Some_0.next == 0,
    decreases count,
{
    if count > 0 {
        lemma_sending_stops_at_the_chain_limit(session, (count - 1) as nat, frame, own);
    }
}

/// The responder sends only after receiving: its first state cannot send,
/// a refused frame leaves it so, and once a frame opens it has a sending
/// chain at its start.
pub proof fn lemma_responder_sends_after_receiving(
    shared_key: Seq<u8>,
    signed_prekey: Seq<u8>,
    nonce: Seq<u8>,
    frame: Seq<u8>,
    fresh: Result<Seq<u8>, crate::crypto::Error>,
    result: Result<Seq<u8>, Error>,
    new: SessionView,
)
    requires
        delivered(responder_state(shared_key, signed_prekey), nonce, frame, fresh, result, new),
    ensures
        !can_send(responder_state(shared_key, signed_prekey)),
        result is Err ==> !can_send(new),
        result is Ok ==> can_send(new) && new.sending->Some_0.next == 0,
{
    let old = responder_state(shared_key, signed_prekey);
    let remote = frame_ratchet(frame);
    assert(!has_key_for(old.skipped, remote, frame_message_number(frame)));
}

/// A DH ratchet step hands the lead over: once the receiver has opened a
/// frame under the sender's ratchet key by stepping to a fresh key of its
/// own, it follows the sender.
pub proof fn lemma_step_hands_over(
    sender: SessionView,
    receiver: SessionView,
    nonce: Seq<u8>,
    frame: Seq<u8>,
    fresh: Result<Seq<u8>, crate::crypto::Error>,
    plaintext: Seq<u8>,
    new: SessionView,
)
    requires
        follows(sender, receiver),
        sender.own_ratchet.len() == 32,
        receiver.own_ratchet.len() == 32,
        dh_agrees(
            sender.own_ratchet,
            x25519_public(receiver.own_ratchet),
            x25519_function(sender.own_ratchet, x25519_public(receiver.own_ratchet)),
        ),
        frame_ratchet(frame) == x25519_public(sender.own_ratchet),
        receiver.remote_ratchet != Some(x25519_public(sender.own_ratchet)),
        !has_key_for(
            receiver.skipped,
            x25519_public(sender.own_ratchet),
            frame_message_number(frame),
        ),
        delivered(receiver, nonce, frame, fresh, Ok::<Seq<u8>, Error>(plaintext), new),
    ensures
        follows(new, sender),
{
    let remote = x25519_public(sender.own_ratchet);
    let peer = x25519_public(receiver.own_ratchet);
    let own = fresh->Ok_0;
    assert(new == after_step(receiver, frame, own));
    assert(x25519_function(receiver.own_ratchet, remote) == x25519_function(
        sender.own_ratchet,
        peer,
    ));
    assert(next_root_key(receiver.root_key, receiver.own_ratchet, remote) == sender.root_key);
}

/// After that step, the receiver receives the sender's chain: every later
/// state of the sender in the same chain is tracked by it.
pub proof fn lemma_step_tracks_the_chain(
    sender: SessionView,
    receiver: SessionView,
    nonce: Seq<u8>,
    frame: Seq<u8>,
    fresh: Result<Seq<u8>, crate::crypto::Error>,
    plaintext: Seq<u8>,
    new: SessionView,
    later: SessionView,
)
    requires
        follows(sender, receiver),
        sender.own_ratchet.len() == 32,
        receiver.own_ratchet.len() == 32,
        dh_agrees(
            sender.own_ratchet,
            x25519_public(receiver.own_ratchet),
            x25519_function(sender.own_ratchet, x25519_public(receiver.own_ratchet)),
        ),
        frame_ratchet(frame) == x25519_public(sender.own_ratchet),
        receiver.remote_ratchet != Some(x25519_public(sender.own_ratchet)),
        !has_key_for(
            receiver.skipped,
            x25519_public(sender.own_ratchet),
            frame_message_number(frame),
        ),
        delivered(receiver, nonce, frame, fresh, Ok::<Seq<u8>, Error>(plaintext), new),
        follows(later, receiver),
        later.own_ratchet == sender.own_ratchet,
        later.sending->Some_0.next > frame_message_number(frame),
    ensures
        tracks(new, later),
{
    let remote = x25519_public(sender.own_ratchet);
    let peer = x25519_public(receiver.own_ratchet);
    let own = fresh->Ok_0;
    let number = frame_message_number(frame);
    assert(new == after_step(receiver, frame, own));
    assert(x25519_function(receiver.own_ratchet, remote) == x25519_function(
        sender.own_ratchet,
        peer,
    ));
    let base = root_chain_key(receiver.root_key, sender.own_ratchet, peer);
    assert(root_chain_key(receiver.root_key, receiver.own_ratchet, remote) == base);
    let sent = later.sending->Some_0;
    lemma_chain_steps_compose(base, (number + 1) as nat, (sent.next - (number + 1)) as nat);
}

/// Receiving in a chain it tracks keeps a receiver tracking the sender, past
/// the frame it opened.
pub proof fn lemma_in_chain_delivery_keeps_tracking(
    sender: SessionView,
    receiver: SessionView,
    nonce: Seq<u8>,
    frame: Seq<u8>,
    fresh: Result<Seq<u8>, crate::crypto::Error>,
    plaintext: Seq<u8>,
    new: SessionView,
    later: SessionView,
)
    requires
        tracks(receiver, sender),
        frame_ratchet(frame) == x25519_public(sender.own_ratchet),
        !has_key_for(
            receiver.skipped,
            x25519_public(sender.own_ratchet),
            frame_message_number(frame),
        ),
        delivered(receiver, nonce, frame, fresh, Ok::<Seq<u8>, Error>(plaintext), new),
        later.own_ratchet == sender.own_ratchet,
        later.sending matches Some(sent) && sent.next > frame_message_number(frame) && sent.key
            == chain_key_after(
            sender.sending->Some_0.key,
            (sent.next - sender.sending->Some_0.next) as nat,
        ) && sent.next >= sender.sending->Some_0.next,
    ensures
        tracks(new, later),
{
    let chain = receiver.receiving->Some_0;
    let number = frame_message_number(frame);
    let sent = later.sending->Some_0;
    let now = sender.sending->Some_0;
    lemma_chain_steps_compose(chain.key, (now.next - chain.next) as nat, (sent.next - now.next) as nat);
    lemma_chain_steps_compose(chain.key, (number + 1 - chain.next) as nat, (sent.next - (number + 1)) as nat);
}

/// Every kept key after storing a chain's keys was kept before or is one of
/// that chain's keys.
proof fn lemma_stored_from(skipped: Seq<SkippedView>, ratchet: Seq<u8>, pairs: Seq<(u32, Seq<u8>)>, index: int)
    requires
        0 <= index < stored(skipped, ratchet, pairs).len(),
    ensures
        skipped.contains(stored(skipped, ratchet, pairs)[index]) || entries_for(ratchet, pairs).contains(
            stored(skipped, ratchet, pairs)[index],
        ),
{
    let appended = skipped + entries_for(ratchet, pairs);
    let kept = evicted(appended, ratchet, excess_of(appended, ratchet));
    let entry = stored(skipped, ratchet, pairs)[index];
    let at = if kept.len() > MAX_SKIPPED_TOTAL {
        index + kept.len() - MAX_SKIPPED_TOTAL
    } else {
        index
    };
    assert(kept[at] == entry);
    lemma_evicted_from(appended, ratchet, excess_of(appended, ratchet), at);
    let source = choose|source: int| 0 <= source < appended.len() && appended[source] == entry;
    if source < skipped.len() {
        assert(skipped[source] == entry);
    } else {
        assert(entries_for(ratchet, pairs)[source - skipped.len()] == entry);
    }
}

proof fn lemma_evicted_from(entries: Seq<SkippedView>, ratchet: Seq<u8>, excess: nat, index: int)
    requires
        0 <= index < evicted(entries, ratchet, excess).len(),
    ensures
        exists|source: int| 0 <= source < entries.len() && entries[source] == evicted(
            entries,
            ratchet,
            excess,
        )[index],
    decreases entries.len(),
{
    lemma_count_evicted(entries, ratchet, excess, ratchet);
    let rest = evicted(entries.drop_last(), ratchet, excess);
    lemma_count_evicted(entries.drop_last(), ratchet, excess, ratchet);
    if index < rest.len() {
        assert(evicted(entries, ratchet, excess)[index] == rest[index]);
        lemma_evicted_from(entries.drop_last(), ratchet, excess, index);
        let source = choose|source: int| 0 <= source < entries.drop_last().len() && entries.drop_last()[source] == rest[index];
        assert(entries[source] == rest[index]);
    } else {
        assert(evicted(entries, ratchet, excess)[index] == entries.last());
        assert(entries[entries.len() - 1] == entries.last());
    }
}

/// A frame that opened in a receiving chain, or after a ratchet step, is
/// refused when it arrives again: its key is gone.
pub proof fn lemma_frame_opens_once(
    old: SessionView,
    nonce: Seq<u8>,
    frame: Seq<u8>,
    fresh: Result<Seq<u8>, crate::crypto::Error>,
    plaintext: Seq<u8>,
    again_fresh: Result<Seq<u8>, crate::crypto::Error>,
    again: Result<Seq<u8>, Error>,
    new: SessionView,
    mid: SessionView,
)
    requires
        !has_key_for(old.skipped, frame_ratchet(frame), frame_message_number(frame)),
        delivered(old, nonce, frame, fresh, Ok::<Seq<u8>, Error>(plaintext), mid),
        delivered(mid, nonce, frame, again_fresh, again, new),
    ensures
        again == Err::<Seq<u8>, Error>(Error::Crypto(crate::crypto::Error::Authentication)),
        new == mid,
{
    let remote = frame_ratchet(frame);
    let number = frame_message_number(frame);
    assert(mid.remote_ratchet == Some(remote));
    assert(mid.receiving->Some_0.next == number + 1);
    let source = if old.remote_ratchet == Some(remote) {
        old.skipped
    } else {
        skipped_after_previous(old, frame)
    };
    let from = if old.remote_ratchet == Some(remote) {
        old.receiving->Some_0.next
    } else {
        0
    };
    let chain_key = if old.remote_ratchet == Some(remote) {
        old.receiving->Some_0.key
    } else {
        root_chain_key(old.root_key, old.own_ratchet, remote)
    };
    assert(mid.skipped == stored(source, remote, chain_run(chain_key, from, number)));
    assert forall|index: int| 0 <= index < mid.skipped.len() implies !#[trigger] is_key_for(
        mid.skipped[index],
        remote,
        number,
    ) by {
        lemma_stored_from(source, remote, chain_run(chain_key, from, number), index);
        let entry = mid.skipped[index];
        if source.contains(entry) {
            let at = choose|at: int| 0 <= at < source.len() && source[at] == entry;
            if old.remote_ratchet == Some(remote) {
                assert(!is_key_for(old.skipped[at], remote, number));
            } else {
                match (old.receiving, old.remote_ratchet) {
                    (Some(chain), Some(previous)) => {
                        let pairs = chain_run(chain.key, chain.next, frame_previous_chain_len(frame));
                        lemma_stored_from(old.skipped, previous, pairs, at);
                        if old.skipped.contains(entry) {
                            let earlier = choose|earlier: int| 0 <= earlier < old.skipped.len() && old.skipped[earlier] == entry;
                            assert(!is_key_for(old.skipped[earlier], remote, number));
                        } else {
                            let added = choose|added: int| 0 <= added < entries_for(previous, pairs).len() && entries_for(previous, pairs)[added] == entry;
                            assert(entry.ratchet == previous);
                        }
                    },
                    _ => {
                        assert(!is_key_for(old.skipped[at], remote, number));
                    },
                }
            }
        } else {
            let pairs = chain_run(chain_key, from, number);
            let added = choose|added: int| 0 <= added < entries_for(remote, pairs).len() && entries_for(remote, pairs)[added] == entry;
            assert(entry.number == pairs[added].0);
            assert(pairs[added].0 < number);
        }
    }
}

/// The HKDF info of a root step, byte by byte: `QUIETWIRE-ROOT-v1`.
pub open spec fn root_info_bytes() -> Seq<u8> {
    seq![
        0x51u8, 0x55, 0x49, 0x45, 0x54, 0x57, 0x49, 0x52, 0x45, 0x2d, 0x52, 0x4f, 0x4f, 0x54, 0x2d,
        0x76, 0x31,
    ]
}

/// A root step is HKDF-SHA512 of the X25519 output of the two ratchet keys,
/// salted with the current root key, under `QUIETWIRE-ROOT-v1`, 64 bytes: the
/// first 32 are the next root key and the last 32 a chain key. An initiator
/// takes its first root step from the shared key, so its root key and
/// sending chain key are that HKDF salted with the shared key.
pub proof fn lemma_root_step_is_salted_with_the_root_key(
    root_key: Seq<u8>,
    own: Seq<u8>,
    remote: Seq<u8>,
)
    ensures
        next_root_key(root_key, own, remote) == hkdf_sha512_okm(
            x25519_function(own, remote),
            root_key,
            root_info_bytes(),
            64,
        ).subrange(0, 32),
        root_chain_key(root_key, own, remote) == hkdf_sha512_okm(
            x25519_function(own, remote),
            root_key,
            root_info_bytes(),
            64,
        ).subrange(32, 64),
        initiator_state(root_key, own, remote).root_key == hkdf_sha512_okm(
            x25519_function(own, remote),
            root_key,
            root_info_bytes(),
            64,
        ).subrange(0, 32),
        initiator_state(root_key, own, remote).sending == Some(
            ChainView {
                key: hkdf_sha512_okm(x25519_function(own, remote), root_key, root_info_bytes(), 64).subrange(
                    32,
                    64,
                ),
                next: 0,
            },
        ),
        responder_state(root_key, own).root_key == root_key,
{
    assert(ROOT_INFO@ =~= root_info_bytes());
}

/// A chain key yields its message key as the first 32 bytes of its
/// HMAC-SHA512 over the byte 0x01, and the next chain key as those of its
/// HMAC-SHA512 over the byte 0x02; `steps` steps along a chain are that
/// many such chain-key steps.
pub proof fn lemma_chain_step_inputs(chain_key: Seq<u8>, steps: nat)
    ensures
        message_key_of(chain_key) == hmac_sha512_tag(chain_key, seq![0x01u8]).subrange(0, 32),
        next_chain_key(chain_key) == hmac_sha512_tag(chain_key, seq![0x02u8]).subrange(0, 32),
        chain_key_after(chain_key, 0) == chain_key,
        chain_key_after(chain_key, steps + 1) == hmac_sha512_tag(
            chain_key_after(chain_key, steps),
            seq![0x02u8],
        ).subrange(0, 32),
        message_key_after(chain_key, steps) == hmac_sha512_tag(
            chain_key_after(chain_key, steps),
            seq![0x01u8],
        ).subrange(0, 32),
{
    assert(MESSAGE_KEY_INPUT@ =~= seq![0x01u8]);
    assert(CHAIN_KEY_INPUT@ =~= seq![0x02u8]);
}

/// Sending a frame seals the plaintext under the first 32 bytes of the
/// HMAC-SHA512 of the sending chain key over 0x01, with the header (the
/// public ratchet key, the previous chain length and the message number,
/// little-endian) in front and as associated data, and then moves the chain
/// to the first 32 bytes of its HMAC-SHA512 over 0x02, one number on; the
/// rest of the session stays as it was.
pub proof fn lemma_send_seals_and_steps_the_chain(session: SessionView, nonce: Seq<u8>, plaintext: Seq<u8>)
    requires
        can_send(session),
    ensures
        ({
            let chain = session.sending->Some_0;
            let header = x25519_public(session.own_ratchet) + spec_u32_to_le_bytes(
                session.previous_sending_len,
            ) + spec_u32_to_le_bytes(chain.next);
            &&& sent_frame(session, nonce, plaintext) == header + xchacha20_poly1305_seal(
                hmac_sha512_tag(chain.key, seq![0x01u8]).subrange(0, 32),
                nonce,
                header,
                plaintext,
            )
            &&& after_send(session).sending == Some(
                ChainView {
                    key: hmac_sha512_tag(chain.key, seq![0x02u8]).subrange(0, 32),
                    next: (chain.next + 1) as u32,
                },
            )
            &&& after_send(session).root_key == session.root_key
            &&& after_send(session).own_ratchet == session.own_ratchet
            &&& after_send(session).remote_ratchet == session.remote_ratchet
            &&& after_send(session).receiving == session.receiving
            &&& after_send(session).previous_sending_len == session.previous_sending_len
            &&& after_send(session).skipped == session.skipped
        }),
{
    lemma_chain_step_inputs(session.sending->Some_0.key, 0);
}

/// A frame's header is its first 40 bytes: the ratchet key in bytes 0..32,
/// the previous chain length in 32..36 and the message number in 36..40,
/// both little-endian.
pub proof fn lemma_header_offsets(frame: Seq<u8>)
    ensures
        frame_ratchet(frame) == frame.subrange(0, 32),
        frame_previous_chain_len(frame) == spec_u32_from_le_bytes(frame.subrange(32, 36)),
        frame_message_number(frame) == spec_u32_from_le_bytes(frame.subrange(36, 40)),
{
}

} // verus!
