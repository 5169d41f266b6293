//! The 396-byte application payload.
//!
//! This is the plaintext a ratchet frame carries, and it has no slack: the body
//! field is always 365 bytes, filled with content and then with random bytes to
//! the end. Padding that were zeroes would hand anybody who ever sees a
//! plaintext the exact length of what was written, so it is drawn from the same
//! source as a key.
//!
//! The timestamp is rounded down to a whole minute. A millisecond reading is a
//! fingerprint of the sending device's clock and of the moment it was awake.

use vstd::bytes::{
    lemma_auto_spec_u16_to_from_le_bytes, lemma_auto_spec_u64_to_from_le_bytes,
    spec_u16_from_le_bytes, spec_u16_to_le_bytes, spec_u64_from_le_bytes, spec_u64_to_le_bytes,
    u16_from_le_bytes, u16_to_le_bytes, u64_from_le_bytes, u64_to_le_bytes,
};
use vstd::prelude::*;
use vstd::string::StringExecFns;
use vstd::slice::slice_subrange;

use crate::crypto::rng::random_array;
use crate::text::{decimal, hex_byte, push_decimal, push_hex_byte};
use crate::wire::{copy_into, spliced, take_array};

verus! {

/// Length of a payload, which is the whole plaintext of one frame.
pub const PAYLOAD_LEN: usize = 396;
/// Offset of the body field.
pub const BODY_AT: usize = 31;
/// Length of the body field: content, then random padding.
pub const MAX_BODY_LEN: usize = 365;
/// Granularity the timestamp is rounded down to, in milliseconds.
pub const TIMESTAMP_GRANULARITY_MS: u64 = 60_000;
/// Length of the message identifier.
pub const MESSAGE_ID_LEN: usize = 16;

const MESSAGE_ID_AT: usize = 0;
const TIMESTAMP_AT: usize = 16;
const CONTENT_TYPE_AT: usize = 24;
const FRAGMENT_INDEX_AT: usize = 25;
const FRAGMENT_TOTAL_AT: usize = 27;
const BODY_LENGTH_AT: usize = 29;

/// The code point withdrawn from v1 and reserved against reuse.
const WITHDRAWN: u8 = 0x06;

/// Why a payload could not be read or built.
#[derive(Debug, Clone, Copy, PartialEq, Eq)]
pub enum Error {
    /// The input was not exactly [`PAYLOAD_LEN`] bytes.
    InvalidLength,
    /// The body was longer than [`MAX_BODY_LEN`].
    BodyTooLong(usize),
    /// The content type was 0x06, withdrawn from v1.
    ReservedContentType,
    /// The content type named nothing this build knows.
    UnknownContentType(u8),
    /// A fragment set of no fragments.
    EmptyFragmentSet,
    /// A fragment index at or past the size of its set.
    FragmentOutOfSet,
    /// The operating system random number generator failed.
    Rng,
}

/// The sentence each payload error is shown as.
pub open spec fn payload_error_text(error: Error) -> Seq<char> {
    match error {
        Error::InvalidLength => "a payload is exactly 396 bytes"@,
        Error::BodyTooLong(len) => "body of "@ + decimal(len as nat) + " bytes above 365"@,
        Error::ReservedContentType => "content type 0x06 is withdrawn from v1"@,
        Error::UnknownContentType(code) => "unknown content type "@ + hex_byte(code),
        Error::EmptyFragmentSet => "a fragment set holds at least one fragment"@,
        Error::FragmentOutOfSet => "fragment index past the end of its set"@,
        Error::Rng => "random number generator unavailable"@,
    }
}

impl Error {
    /// The sentence this error is shown as.
    pub fn message(&self) -> (text: String)
        ensures
            text@ == payload_error_text(*self),
    {
        match self {
            Error::InvalidLength => String::from_str("a payload is exactly 396 bytes"),
            Error::BodyTooLong(len) => {
                let mut text = String::from_str("body of ");
                push_decimal(&mut text, *len);
                text.append(" bytes above 365");
                text
            },
            Error::ReservedContentType => String::from_str("content type 0x06 is withdrawn from v1"),
            Error::UnknownContentType(code) => {
                let mut text = String::from_str("unknown content type ");
                push_hex_byte(&mut text, *code);
                text
            },
            Error::EmptyFragmentSet => String::from_str("a fragment set holds at least one fragment"),
            Error::FragmentOutOfSet => String::from_str("fragment index past the end of its set"),
            Error::Rng => String::from_str("random number generator unavailable"),
        }
    }
}

/// What the body of a payload holds.
#[derive(Debug, Clone, Copy, PartialEq, Eq)]
pub enum ContentType {
    /// UTF-8 text.
    Text,
    /// Confirmation that a message arrived.
    DeliveryReceipt,
    /// Confirmation that a message was read.
    ReadReceipt,
    /// A contact's public bundle.
    ContactBundle,
    /// One fragment of a file.
    FileFragment,
    /// The opening message of a session.
    SessionInit,
    /// A request to resynchronise epoch tags.
    TagResync,
    /// Cover traffic, addressed to the sender and discarded on arrival.
    Decoy,
}

/// The code point of each content type.
pub open spec fn content_code(content_type: ContentType) -> u8 {
    match content_type {
        ContentType::Text => 0x01,
        ContentType::DeliveryReceipt => 0x02,
        ContentType::ReadReceipt => 0x03,
        ContentType::ContactBundle => 0x04,
        ContentType::FileFragment => 0x05,
        ContentType::SessionInit => 0x07,
        ContentType::TagResync => 0x08,
        ContentType::Decoy => 0xFF,
    }
}

/// What reading a code point gives: the content type it names, or why none.
pub open spec fn content_from_code(code: u8) -> Result<ContentType, Error> {
    if code == 0x01 {
        Ok(ContentType::Text)
    } else if code == 0x02 {
        Ok(ContentType::DeliveryReceipt)
    } else if code == 0x03 {
        Ok(ContentType::ReadReceipt)
    } else if code == 0x04 {
        Ok(ContentType::ContactBundle)
    } else if code == 0x05 {
        Ok(ContentType::FileFragment)
    } else if code == 0x06 {
        Err(Error::ReservedContentType)
    } else if code == 0x07 {
        Ok(ContentType::SessionInit)
    } else if code == 0x08 {
        Ok(ContentType::TagResync)
    } else if code == 0xFF {
        Ok(ContentType::Decoy)
    } else {
        Err(Error::UnknownContentType(code))
    }
}

impl ContentType {
    /// The code point of this content type.
    pub fn code(self) -> (code: u8)
        ensures
            code == content_code(self),
    {
        match self {
            Self::Text => 0x01,
            Self::DeliveryReceipt => 0x02,
            Self::ReadReceipt => 0x03,
            Self::ContactBundle => 0x04,
            Self::FileFragment => 0x05,
            Self::SessionInit => 0x07,
            Self::TagResync => 0x08,
            Self::Decoy => 0xFF,
        }
    }

    /// Reads a code point.
    ///
    /// # Errors
    ///
    /// Returns [`Error::ReservedContentType`] for 0x06, which v1 withdrew and
    /// which must stay unusable so a later version can spend it, and
    /// [`Error::UnknownContentType`] for anything else unassigned.
    pub fn from_code(code: u8) -> (result: Result<Self, Error>)
        ensures
            result == content_from_code(code),
    {
        match code {
            0x01 => Ok(Self::Text),
            0x02 => Ok(Self::DeliveryReceipt),
            0x03 => Ok(Self::ReadReceipt),
            0x04 => Ok(Self::ContactBundle),
            0x05 => Ok(Self::FileFragment),
            WITHDRAWN => Err(Error::ReservedContentType),
            0x07 => Ok(Self::SessionInit),
            0x08 => Ok(Self::TagResync),
            0xFF => Ok(Self::Decoy),
            _ => Err(Error::UnknownContentType(code)),
        }
    }
}

/// Every content type reads back from its own code point, and the withdrawn
/// code point names none.
pub proof fn lemma_content_code_round_trip(content_type: ContentType)
    ensures
        content_from_code(content_code(content_type)) == Ok::<ContentType, Error>(content_type),
        content_code(content_type) != 0x06,
{
}

/// The content-type code points of the wire table: Text 0x01, delivery
/// receipt 0x02, read receipt 0x03, contact bundle 0x04, file fragment 0x05,
/// session init 0x07, tag resync 0x08 and decoy 0xFF; reading gives back each
/// of these, refuses the withdrawn 0x06 as reserved, and every other byte as
/// unknown.
pub proof fn lemma_content_type_wire_table(code: u8)
    ensures
        content_code(ContentType::Text) == 0x01,
        content_code(ContentType::DeliveryReceipt) == 0x02,
        content_code(ContentType::ReadReceipt) == 0x03,
        content_code(ContentType::ContactBundle) == 0x04,
        content_code(ContentType::FileFragment) == 0x05,
        content_code(ContentType::SessionInit) == 0x07,
        content_code(ContentType::TagResync) == 0x08,
        content_code(ContentType::Decoy) == 0xFF,
        content_from_code(0x01) == Ok::<ContentType, Error>(ContentType::Text),
        content_from_code(0x02) == Ok::<ContentType, Error>(ContentType::DeliveryReceipt),
        content_from_code(0x03) == Ok::<ContentType, Error>(ContentType::ReadReceipt),
        content_from_code(0x04) == Ok::<ContentType, Error>(ContentType::ContactBundle),
        content_from_code(0x05) == Ok::<ContentType, Error>(ContentType::FileFragment),
        content_from_code(0x06) == Err::<ContentType, Error>(Error::ReservedContentType),
        content_from_code(0x07) == Ok::<ContentType, Error>(ContentType::SessionInit),
        content_from_code(0x08) == Ok::<ContentType, Error>(ContentType::TagResync),
        content_from_code(0xFF) == Ok::<ContentType, Error>(ContentType::Decoy),
        !(1 <= code <= 8 || code == 0xFF) ==> content_from_code(code) == Err::<ContentType, Error>(
            Error::UnknownContentType(code),
        ),
{
}

/// Where a fragment sits in its set, and the check every fragment passes.
pub open spec fn fragment_check(index: u16, total: u16) -> Result<(), Error> {
    if total == 0 {
        Err(Error::EmptyFragmentSet)
    } else if index >= total {
        Err(Error::FragmentOutOfSet)
    } else {
        Ok(())
    }
}

/// Where a payload sits in the set of payloads that carry one message.
#[derive(Debug, Clone, Copy, PartialEq, Eq)]
pub struct Fragment {
    index: u16,
    total: u16,
}

impl Fragment {
    #[verifier::type_invariant]
    spec fn in_set(self) -> bool {
        0 < self.total && self.index < self.total
    }

    /// This fragment's place in its set.
    pub closed spec fn index_of(self) -> u16 {
        self.index
    }

    /// The size of its set.
    pub closed spec fn total_of(self) -> u16 {
        self.total
    }

    /// Places a fragment in its set.
    ///
    /// # Errors
    ///
    /// Returns [`Error::EmptyFragmentSet`] for a set of no fragments and
    /// [`Error::FragmentOutOfSet`] for an index at or past its end.
    pub fn new(index: u16, total: u16) -> (result: Result<Self, Error>)
        ensures
            result is Err <==> fragment_check(index, total) is Err,
            result matches Err(error) ==> fragment_check(index, total) == Err::<(), Error>(error),
            result matches Ok(fragment) ==> fragment.index_of() == index && fragment.total_of()
                == total,
    {
        if total == 0 {
            return Err(Error::EmptyFragmentSet);
        }
        if index >= total {
            return Err(Error::FragmentOutOfSet);
        }
        Ok(Self { index, total })
    }

    /// This fragment's place in its set.
    pub fn index(self) -> (index: u16)
        ensures
            index == self.index_of(),
            index < self.total_of(),
    {
        proof {
            use_type_invariant(&self);
        }
        self.index
    }

    /// How many fragments the whole message takes.
    pub fn total(self) -> (total: u16)
        ensures
            total == self.total_of(),
            total > 0,
    {
        proof {
            use_type_invariant(&self);
        }
        self.total
    }
}

/// What a payload holds, field by field.
pub struct PayloadView {
    pub message_id: Seq<u8>,
    pub timestamp_ms: u64,
    pub content_type: ContentType,
    pub fragment_index: u16,
    pub fragment_total: u16,
    pub body_length: u16,
    /// The whole body field: content, then padding.
    pub body: Seq<u8>,
}

/// A payload every field of which has its length and range.
pub open spec fn valid_payload(v: PayloadView) -> bool {
    &&& v.message_id.len() == MESSAGE_ID_LEN
    &&& v.body.len() == MAX_BODY_LEN
    &&& v.body_length <= MAX_BODY_LEN
    &&& fragment_check(v.fragment_index, v.fragment_total) is Ok
}

/// The wire layout: message id, timestamp, content type, fragment index,
/// fragment total, body length, body field; integers little-endian.
pub open spec fn payload_wire(v: PayloadView) -> Seq<u8> {
    v.message_id + spec_u64_to_le_bytes(v.timestamp_ms) + seq![content_code(v.content_type)]
        + spec_u16_to_le_bytes(v.fragment_index) + spec_u16_to_le_bytes(v.fragment_total)
        + spec_u16_to_le_bytes(v.body_length) + v.body
}

/// What reading `bytes` out of a decrypted frame gives, refusal included.
pub open spec fn parse_payload(bytes: Seq<u8>) -> Result<PayloadView, Error> {
    if bytes.len() != PAYLOAD_LEN {
        Err(Error::InvalidLength)
    } else {
        let body_length = spec_u16_from_le_bytes(bytes.subrange(29, 31));
        let index = spec_u16_from_le_bytes(bytes.subrange(25, 27));
        let total = spec_u16_from_le_bytes(bytes.subrange(27, 29));
        if body_length > MAX_BODY_LEN {
            Err(Error::BodyTooLong(body_length as usize))
        } else if content_from_code(bytes[24]) is Err {
            Err(content_from_code(bytes[24])->Err_0)
        } else if fragment_check(index, total) is Err {
            Err(fragment_check(index, total)->Err_0)
        } else {
            Ok(
                PayloadView {
                    message_id: bytes.subrange(0, 16),
                    timestamp_ms: spec_u64_from_le_bytes(bytes.subrange(16, 24)),
                    content_type: content_from_code(bytes[24])->Ok_0,
                    fragment_index: index,
                    fragment_total: total,
                    body_length,
                    body: bytes.subrange(31, 396),
                },
            )
        }
    }
}

/// The timestamp a payload keeps of a clock reading: rounded down to a minute.
pub open spec fn rounded_to_minute(clock_ms: u64) -> u64 {
    (clock_ms - clock_ms % TIMESTAMP_GRANULARITY_MS) as u64
}

/// The payload around `body` with the given message identifier, the body
/// field filled past the body with `padding`, and the clock rounded down to a
/// minute.
pub open spec fn assembled_payload(
    content_type: ContentType,
    fragment_index: u16,
    fragment_total: u16,
    clock_ms: u64,
    body: Seq<u8>,
    message_id: Seq<u8>,
    padding: Seq<u8>,
) -> PayloadView {
    PayloadView {
        message_id,
        timestamp_ms: rounded_to_minute(clock_ms),
        content_type,
        fragment_index,
        fragment_total,
        body_length: body.len() as u16,
        body: body + padding.subrange(body.len() as int, MAX_BODY_LEN as int),
    }
}

/// One application payload.
#[derive(Clone, Copy, PartialEq, Eq)]
pub struct Payload {
    message_id: [u8; MESSAGE_ID_LEN],
    timestamp_ms: u64,
    content_type: ContentType,
    fragment: Fragment,
    body_length: u16,
    body: [u8; MAX_BODY_LEN],
}

impl View for Payload {
    type V = PayloadView;

    closed spec fn view(&self) -> PayloadView {
        PayloadView {
            message_id: self.message_id@,
            timestamp_ms: self.timestamp_ms,
            content_type: self.content_type,
            fragment_index: self.fragment.index,
            fragment_total: self.fragment.total,
            body_length: self.body_length,
            body: self.body@,
        }
    }
}

/// What reading a payload gives, by what it holds.
pub open spec fn payload_result_view(result: Result<Payload, Error>) -> Result<PayloadView, Error> {
    match result {
        Ok(payload) => Ok(payload@),
        Err(error) => Err(error),
    }
}

impl Payload {
    #[verifier::type_invariant]
    spec fn body_fits(self) -> bool {
        self.body_length <= MAX_BODY_LEN
    }

    /// Builds a payload around a body, drawing a fresh message identifier and
    /// filling the rest of the body field with random padding.
    ///
    /// `clock_ms` is a millisecond reading; the payload keeps it rounded down
    /// to [`TIMESTAMP_GRANULARITY_MS`].
    ///
    /// # Errors
    ///
    /// Returns [`Error::BodyTooLong`] for a body above [`MAX_BODY_LEN`] and
    /// [`Error::Rng`] if the operating system random number generator fails.
    pub fn new(content_type: ContentType, fragment: Fragment, clock_ms: u64, body: &[u8]) -> (result:
        Result<Self, Error>)
        ensures
            body@.len() > MAX_BODY_LEN ==> result == Err::<Self, Error>(
                Error::BodyTooLong(body@.len() as usize),
            ),
            body@.len() <= MAX_BODY_LEN && result is Err ==> result == Err::<Self, Error>(
                Error::Rng,
            ),
            result matches Ok(payload) ==> {
                &&& valid_payload(payload@)
                &&& payload@.content_type == content_type
                &&& payload@.fragment_index == fragment.index_of()
                &&& payload@.fragment_total == fragment.total_of()
                &&& payload@.timestamp_ms == rounded_to_minute(clock_ms)
                &&& payload@.body_length == body@.len()
                &&& payload@.body.subrange(0, body@.len() as int) == body@
                &&& payload@ == assembled_payload(
                    content_type,
                    fragment.index_of(),
                    fragment.total_of(),
                    clock_ms,
                    body@,
                    payload@.message_id,
                    payload@.body,
                )
            },
    {
        if body.len() > MAX_BODY_LEN {
            return Err(Error::BodyTooLong(body.len()));
        }
        let message_id: [u8; MESSAGE_ID_LEN] = match random_array() {
            Ok(bytes) => bytes,
            Err(_) => return Err(Error::Rng),
        };
        let padding: [u8; MAX_BODY_LEN] = match random_array() {
            Ok(bytes) => bytes,
            Err(_) => return Err(Error::Rng),
        };
        let result = Self::assemble(content_type, fragment, clock_ms, body, message_id, padding);
        proof {
            if let Ok(payload) = result {
                assert(payload@.body.subrange(body@.len() as int, MAX_BODY_LEN as int)
                    =~= padding@.subrange(body@.len() as int, MAX_BODY_LEN as int));
                assert(payload@.body.subrange(0, body@.len() as int) =~= body@);
            }
        }
        result
    }

    /// The payload [`Payload::new`] builds once it has drawn `message_id` and
    /// `padding`: the body field is `body` followed by the part of `padding`
    /// past it.
    ///
    /// # Errors
    ///
    /// Returns [`Error::BodyTooLong`] for a body above [`MAX_BODY_LEN`].
    pub fn assemble(
        content_type: ContentType,
        fragment: Fragment,
        clock_ms: u64,
        body: &[u8],
        message_id: [u8; MESSAGE_ID_LEN],
        padding: [u8; MAX_BODY_LEN],
    ) -> (result: Result<Self, Error>)
        ensures
            body@.len() > MAX_BODY_LEN ==> result == Err::<Self, Error>(
                Error::BodyTooLong(body@.len() as usize),
            ),
            body@.len() <= MAX_BODY_LEN ==> result is Ok,
            result matches Ok(payload) ==> valid_payload(payload@) && payload@ == assembled_payload(
                content_type,
                fragment.index_of(),
                fragment.total_of(),
                clock_ms,
                body@,
                message_id@,
                padding@,
            ),
    {
        proof {
            use_type_invariant(&fragment);
        }
        if body.len() > MAX_BODY_LEN {
            return Err(Error::BodyTooLong(body.len()));
        }
        let body_length = body.len() as u16;
        let mut filled = padding;
        copy_into(&mut filled, 0, body);
        assert(filled@ =~= body@ + padding@.subrange(body@.len() as int, MAX_BODY_LEN as int));
        Ok(
            Self {
                message_id,
                timestamp_ms: clock_ms - clock_ms % TIMESTAMP_GRANULARITY_MS,
                content_type,
                fragment,
                body_length,
                body: filled,
            },
        )
    }

    /// Builds one cover payload: a whole body field of random bytes, which is
    /// what a payload of any other kind also looks like once sealed.
    ///
    /// # Errors
    ///
    /// Returns [`Error::Rng`] if the operating system random number generator
    /// fails.
    pub fn decoy(clock_ms: u64) -> (result: Result<Self, Error>)
        ensures
            result is Err ==> result == Err::<Self, Error>(Error::Rng),
            result matches Ok(payload) ==> {
                &&& valid_payload(payload@)
                &&& payload@.content_type == ContentType::Decoy
                &&& payload@.fragment_index == 0
                &&& payload@.fragment_total == 1
                &&& payload@.timestamp_ms == rounded_to_minute(clock_ms)
                &&& payload@.body_length == 0
                &&& payload@ == assembled_payload(
                    ContentType::Decoy,
                    0,
                    1,
                    clock_ms,
                    Seq::empty(),
                    payload@.message_id,
                    payload@.body,
                )
            },
    {
        let fragment = match Fragment::new(0, 1) {
            Ok(fragment) => fragment,
            Err(error) => return Err(error),
        };
        let empty: [u8; 0] = [];
        Self::new(ContentType::Decoy, fragment, clock_ms, empty.as_slice())
    }

    /// Reads a payload out of a decrypted frame.
    ///
    /// # Errors
    ///
    /// Returns [`Error::InvalidLength`] unless the input is exactly
    /// [`PAYLOAD_LEN`] bytes, [`Error::BodyTooLong`] for a body length past the
    /// field, and the content-type and fragment errors of [`ContentType`] and
    /// [`Fragment`].
    pub fn from_bytes(bytes: &[u8]) -> (result: Result<Self, Error>)
        ensures
            payload_result_view(result) == parse_payload(bytes@),
    {
        if bytes.len() != PAYLOAD_LEN {
            return Err(Error::InvalidLength);
        }
        let body_length = u16_from_le_bytes(slice_subrange(bytes, BODY_LENGTH_AT, BODY_AT));
        if body_length as usize > MAX_BODY_LEN {
            return Err(Error::BodyTooLong(body_length as usize));
        }
        let message_id: [u8; MESSAGE_ID_LEN] = take_array(bytes, MESSAGE_ID_AT);
        let timestamp_ms = u64_from_le_bytes(slice_subrange(bytes, TIMESTAMP_AT, CONTENT_TYPE_AT));
        let body: [u8; MAX_BODY_LEN] = take_array(bytes, BODY_AT);
        let content_type = match ContentType::from_code(bytes[CONTENT_TYPE_AT]) {
            Ok(content_type) => content_type,
            Err(error) => return Err(error),
        };
        let index = u16_from_le_bytes(slice_subrange(bytes, FRAGMENT_INDEX_AT, FRAGMENT_TOTAL_AT));
        let total = u16_from_le_bytes(slice_subrange(bytes, FRAGMENT_TOTAL_AT, BODY_LENGTH_AT));
        let fragment = match Fragment::new(index, total) {
            Ok(fragment) => fragment,
            Err(error) => return Err(error),
        };
        let payload = Self { message_id, timestamp_ms, content_type, fragment, body_length, body };
        assert(payload@ == parse_payload(bytes@)->Ok_0);
        Ok(payload)
    }

    /// Writes the payload out in wire order, padding included.
    pub fn to_bytes(&self) -> (bytes: [u8; PAYLOAD_LEN])
        ensures
            valid_payload(self@),
            bytes@ == payload_wire(self@),
    {
        proof {
            use_type_invariant(self);
            use_type_invariant(&self.fragment);
            lemma_auto_spec_u16_to_from_le_bytes();
            lemma_auto_spec_u64_to_from_le_bytes();
        }
        let mut bytes = [0u8; PAYLOAD_LEN];
        copy_into(&mut bytes, MESSAGE_ID_AT, &self.message_id);
        let timestamp = u64_to_le_bytes(self.timestamp_ms);
        copy_into(&mut bytes, TIMESTAMP_AT, timestamp.as_slice());
        bytes[CONTENT_TYPE_AT] = self.content_type.code();
        let index = u16_to_le_bytes(self.fragment.index);
        copy_into(&mut bytes, FRAGMENT_INDEX_AT, index.as_slice());
        let total = u16_to_le_bytes(self.fragment.total);
        copy_into(&mut bytes, FRAGMENT_TOTAL_AT, total.as_slice());
        let body_length = u16_to_le_bytes(self.body_length);
        copy_into(&mut bytes, BODY_LENGTH_AT, body_length.as_slice());
        copy_into(&mut bytes, BODY_AT, &self.body);
        assert(bytes@ =~= payload_wire(self@));
        bytes
    }

    /// The random identifier of the message this payload belongs to.
    pub fn message_id(&self) -> (id: &[u8; MESSAGE_ID_LEN])
        ensures
            id@ == self@.message_id,
    {
        &self.message_id
    }

    /// When the message was written, to the minute.
    pub fn timestamp_ms(&self) -> (timestamp_ms: u64)
        ensures
            timestamp_ms == self@.timestamp_ms,
    {
        self.timestamp_ms
    }

    /// What the body holds.
    pub fn content_type(&self) -> (content_type: ContentType)
        ensures
            content_type == self@.content_type,
    {
        self.content_type
    }

    /// Where this payload sits among the payloads of its message.
    pub fn fragment(&self) -> (fragment: Fragment)
        ensures
            fragment.index_of() == self@.fragment_index,
            fragment.total_of() == self@.fragment_total,
    {
        self.fragment
    }

    /// The content, without the padding that follows it.
    pub fn body(&self) -> (body: &[u8])
        ensures
            valid_payload(self@),
            body@ == self@.body.subrange(0, self@.body_length as int),
    {
        proof {
            use_type_invariant(self);
            use_type_invariant(&self.fragment);
        }
        slice_subrange(self.body.as_slice(), 0, self.body_length as usize)
    }
}

/// Writing a valid payload out and reading it back gives the same payload, in
/// exactly [`PAYLOAD_LEN`] bytes.
pub proof fn lemma_payload_round_trip(v: PayloadView)
    requires
        valid_payload(v),
    ensures
        payload_wire(v).len() == PAYLOAD_LEN,
        parse_payload(payload_wire(v)) == Ok::<PayloadView, Error>(v),
{
    lemma_auto_spec_u16_to_from_le_bytes();
    lemma_auto_spec_u64_to_from_le_bytes();
    lemma_content_code_round_trip(v.content_type);
    let b = payload_wire(v);
    assert(b.subrange(0, 16) =~= v.message_id);
    assert(b.subrange(16, 24) =~= spec_u64_to_le_bytes(v.timestamp_ms));
    assert(b.subrange(25, 27) =~= spec_u16_to_le_bytes(v.fragment_index));
    assert(b.subrange(27, 29) =~= spec_u16_to_le_bytes(v.fragment_total));
    assert(b.subrange(29, 31) =~= spec_u16_to_le_bytes(v.body_length));
    assert(b.subrange(31, 396) =~= v.body);
}

/// Every field of a payload sits at its fixed offsets, integers
/// little-endian: message id in bytes 0..16, timestamp 16..24, content-type
/// code 24, fragment index 25..27, fragment total 27..29, body length 29..31
/// and the body field 31..396. Reading takes each field from there, and
/// writing puts each field there.
pub proof fn lemma_payload_field_offsets(bytes: Seq<u8>, v: PayloadView)
    requires
        valid_payload(v),
    ensures
        parse_payload(bytes) matches Ok(read) ==> {
            &&& bytes.len() == 396
            &&& read.message_id == bytes.subrange(0, 16)
            &&& read.timestamp_ms == spec_u64_from_le_bytes(bytes.subrange(16, 24))
            &&& content_code(read.content_type) == bytes[24]
            &&& read.fragment_index == spec_u16_from_le_bytes(bytes.subrange(25, 27))
            &&& read.fragment_total == spec_u16_from_le_bytes(bytes.subrange(27, 29))
            &&& read.body_length == spec_u16_from_le_bytes(bytes.subrange(29, 31))
            &&& read.body == bytes.subrange(31, 396)
        },
        ({
            let b = payload_wire(v);
            &&& b.len() == 396
            &&& b.subrange(0, 16) == v.message_id
            &&& spec_u64_from_le_bytes(b.subrange(16, 24)) == v.timestamp_ms
            &&& b[24] == content_code(v.content_type)
            &&& spec_u16_from_le_bytes(b.subrange(25, 27)) == v.fragment_index
            &&& spec_u16_from_le_bytes(b.subrange(27, 29)) == v.fragment_total
            &&& spec_u16_from_le_bytes(b.subrange(29, 31)) == v.body_length
            &&& b.subrange(31, 396) == v.body
        }),
{
    lemma_auto_spec_u16_to_from_le_bytes();
    lemma_auto_spec_u64_to_from_le_bytes();
    let b = payload_wire(v);
    assert(b.subrange(0, 16) =~= v.message_id);
    assert(b.subrange(16, 24) =~= spec_u64_to_le_bytes(v.timestamp_ms));
    assert(b.subrange(25, 27) =~= spec_u16_to_le_bytes(v.fragment_index));
    assert(b.subrange(27, 29) =~= spec_u16_to_le_bytes(v.fragment_total));
    assert(b.subrange(29, 31) =~= spec_u16_to_le_bytes(v.body_length));
    assert(b.subrange(31, 396) =~= v.body);
    if parse_payload(bytes) is Ok {
        let code = bytes[24];
        lemma_content_type_wire_table(code);
        lemma_content_code_round_trip(parse_payload(bytes)->Ok_0.content_type);
    }
}

/// Whatever reads as a payload is written back out as exactly the bytes it
/// was read from.
pub proof fn lemma_payload_parse_is_exact(bytes: Seq<u8>)
    requires
        parse_payload(bytes) is Ok,
    ensures
        valid_payload(parse_payload(bytes)->Ok_0),
        payload_wire(parse_payload(bytes)->Ok_0) == bytes,
{
    lemma_auto_spec_u16_to_from_le_bytes();
    lemma_auto_spec_u64_to_from_le_bytes();
    let v = parse_payload(bytes)->Ok_0;
    assert(spec_u16_to_le_bytes(spec_u16_from_le_bytes(bytes.subrange(25, 27))) == bytes.subrange(
        25,
        27,
    ));
    assert(spec_u16_to_le_bytes(spec_u16_from_le_bytes(bytes.subrange(27, 29))) == bytes.subrange(
        27,
        29,
    ));
    assert(spec_u16_to_le_bytes(spec_u16_from_le_bytes(bytes.subrange(29, 31))) == bytes.subrange(
        29,
        31,
    ));
    assert(spec_u64_to_le_bytes(spec_u64_from_le_bytes(bytes.subrange(16, 24))) == bytes.subrange(
        16,
        24,
    ));
    assert(content_code(content_from_code(bytes[24])->Ok_0) == bytes[24]);
    assert(payload_wire(v) =~= bytes);
}

/// The kept timestamp is the last whole minute at or before the reading.
pub proof fn lemma_timestamp_is_the_minute_before(clock_ms: u64)
    ensures
        rounded_to_minute(clock_ms) % TIMESTAMP_GRANULARITY_MS == 0,
        rounded_to_minute(clock_ms) <= clock_ms,
        clock_ms - rounded_to_minute(clock_ms) < TIMESTAMP_GRANULARITY_MS,
{
}

} // verus!
