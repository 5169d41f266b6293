//! The 512-byte cell.
//!
//! Every cell on every link has this length, whatever it carries, so length
//! reveals nothing. Two of its fields — `ttl` and `copies` — are spent by the
//! relays that forward it, which is why the end-to-end associated data covers
//! the rest and leaves them out. A relay that rewrites them cannot be
//! distinguished from one that did not; they are protected hop by hop inside
//! the link tunnel instead.

use vstd::prelude::*;
use vstd::string::StringExecFns;

use crate::text::{decimal, hex_byte, push_decimal, push_hex_byte};

use crate::crypto::rng::random_array;
use crate::wire::{copy_into, spliced, take_array};

verus! {

/// Length of a cell on the wire.
pub const CELL_LEN: usize = 512;
/// The only protocol version this build speaks.
pub const VERSION: u8 = 0x01;
/// Length of the per-message epoch tag.
pub const TAG_LEN: usize = 16;
/// Length of the XChaCha20-Poly1305 nonce.
pub const NONCE_LEN: usize = 24;
/// Length of the encrypted payload, which holds one ratchet frame.
pub const CIPHERTEXT_LEN: usize = 452;
/// Length of the Poly1305 tag over that payload.
pub const MAC_LEN: usize = 16;
/// Length of the associated data: the authenticated bytes, in wire order.
pub const AAD_LEN: usize = 42;
/// Largest hop count a cell may carry.
pub const MAX_TTL: u8 = 64;
/// Largest copy budget a cell may carry.
pub const MAX_COPIES: u8 = 15;

const VERSION_AT: usize = 0;
const FLAGS_AT: usize = 1;
const TTL_AT: usize = 2;
const COPIES_AT: usize = 3;
const TAG_AT: usize = 4;
const NONCE_AT: usize = 20;
const CIPHERTEXT_AT: usize = 44;
const MAC_AT: usize = 496;

/// Why a cell could not be read or built.
#[derive(Debug, Clone, Copy, PartialEq, Eq)]
pub enum Error {
    /// The input was not exactly [`CELL_LEN`] bytes.
    InvalidLength,
    /// The version byte named a protocol this build does not speak.
    UnsupportedVersion(u8),
    /// The hop count was above [`MAX_TTL`].
    TtlOutOfRange(u8),
    /// The copy budget was above [`MAX_COPIES`].
    CopiesOutOfRange(u8),
    /// The operating system random number generator failed.
    Rng,
}

/// The sentence each cell error is shown as.
pub open spec fn cell_error_text(error: Error) -> Seq<char> {
    match error {
        Error::InvalidLength => "a cell is exactly 512 bytes"@,
        Error::UnsupportedVersion(version) => "unsupported version "@ + hex_byte(version),
        Error::TtlOutOfRange(ttl) => "ttl "@ + decimal(ttl as nat) + " above 64"@,
        Error::CopiesOutOfRange(copies) => "copies "@ + decimal(copies as nat) + " above 15"@,
        Error::Rng => "random number generator unavailable"@,
    }
}

impl Error {
    /// The sentence this error is shown as.
    pub fn message(&self) -> (text: String)
        ensures
            text@ == cell_error_text(*self),
    {
        match self {
            Error::InvalidLength => String::from_str("a cell is exactly 512 bytes"),
            Error::UnsupportedVersion(version) => {
                let mut text = String::from_str("unsupported version ");
                push_hex_byte(&mut text, *version);
                text
            },
            Error::TtlOutOfRange(ttl) => {
                let mut text = String::from_str("ttl ");
                push_decimal(&mut text, *ttl as usize);
                text.append(" above 64");
                text
            },
            Error::CopiesOutOfRange(copies) => {
                let mut text = String::from_str("copies ");
                push_decimal(&mut text, *copies as usize);
                text.append(" above 15");
                text
            },
            Error::Rng => String::from_str("random number generator unavailable"),
        }
    }
}

/// What a cell holds, field by field.
pub struct CellView {
    pub flags: u8,
    pub ttl: u8,
    pub copies: u8,
    pub tag: Seq<u8>,
    pub nonce: Seq<u8>,
    pub ciphertext: Seq<u8>,
    pub mac: Seq<u8>,
}

/// A cell every field of which has its length and range.
pub open spec fn valid_cell(v: CellView) -> bool {
    &&& v.ttl <= MAX_TTL
    &&& v.copies <= MAX_COPIES
    &&& v.tag.len() == TAG_LEN
    &&& v.nonce.len() == NONCE_LEN
    &&& v.ciphertext.len() == CIPHERTEXT_LEN
    &&& v.mac.len() == MAC_LEN
}

/// The wire layout: version, flags, ttl, copies, tag, nonce, ciphertext, mac.
pub open spec fn cell_wire(v: CellView) -> Seq<u8> {
    seq![VERSION, v.flags, v.ttl, v.copies] + v.tag + v.nonce + v.ciphertext + v.mac
}

/// The associated data of the end-to-end seal: version, flags, tag, nonce.
pub open spec fn cell_aad(v: CellView) -> Seq<u8> {
    seq![VERSION, v.flags] + v.tag + v.nonce
}

/// What reading `bytes` off the wire gives, refusal included.
pub open spec fn parse_cell(bytes: Seq<u8>) -> Result<CellView, Error> {
    if bytes.len() != CELL_LEN {
        Err(Error::InvalidLength)
    } else if bytes[0] != VERSION {
        Err(Error::UnsupportedVersion(bytes[0]))
    } else if bytes[2] > MAX_TTL {
        Err(Error::TtlOutOfRange(bytes[2]))
    } else if bytes[3] > MAX_COPIES {
        Err(Error::CopiesOutOfRange(bytes[3]))
    } else {
        Ok(
            CellView {
                flags: bytes[1],
                ttl: bytes[2],
                copies: bytes[3],
                tag: bytes.subrange(4, 20),
                nonce: bytes.subrange(20, 44),
                ciphertext: bytes.subrange(44, 496),
                mac: bytes.subrange(496, 512),
            },
        )
    }
}

/// The same cell one hop poorer.
pub open spec fn spent_cell(v: CellView) -> CellView {
    CellView { ttl: (v.ttl - 1) as u8, ..v }
}

/// The authenticated head of a cell: what the sender fixes and no relay may
/// touch.
#[derive(Debug, Clone, Copy, PartialEq, Eq)]
pub struct CellHeader {
    flags: u8,
    tag: [u8; TAG_LEN],
    nonce: [u8; NONCE_LEN],
}

impl CellHeader {
    /// The flags byte, which carries no meaning.
    pub closed spec fn flags_byte(self) -> u8 {
        self.flags
    }

    /// The tag this header was built around.
    pub closed spec fn tag_bytes(self) -> Seq<u8> {
        self.tag@
    }

    /// The nonce this header was built around.
    pub closed spec fn nonce_bytes(self) -> Seq<u8> {
        self.nonce@
    }

    /// The associated data this header stands for.
    pub open spec fn aad_bytes(self) -> Seq<u8> {
        seq![VERSION, self.flags_byte()] + self.tag_bytes() + self.nonce_bytes()
    }

    /// Builds a header around a tag and nonce, drawing the flags byte fresh.
    ///
    /// All eight flag bits are reserved and carry no meaning, so they are
    /// random: a constant byte would be a free field for a censor to match on.
    ///
    /// # Errors
    ///
    /// Returns [`Error::Rng`] if the operating system random number generator
    /// fails.
    pub fn new(tag: [u8; TAG_LEN], nonce: [u8; NONCE_LEN]) -> (result: Result<Self, Error>)
        ensures
            result matches Ok(header) ==> header.tag_bytes() == tag@ && header.nonce_bytes()
                == nonce@,
            result is Err ==> result == Err::<Self, Error>(Error::Rng),
    {
        match random_array::<1>() {
            Ok(flags) => Ok(Self::with_flags(flags[0], tag, nonce)),
            Err(_) => Err(Error::Rng),
        }
    }

    /// The header around a tag and nonce whose flags byte is `flags`, as
    /// [`CellHeader::new`] builds it once the byte is drawn.
    pub fn with_flags(flags: u8, tag: [u8; TAG_LEN], nonce: [u8; NONCE_LEN]) -> (header: Self)
        ensures
            header.flags_byte() == flags,
            header.tag_bytes() == tag@,
            header.nonce_bytes() == nonce@,
    {
        Self { flags, tag, nonce }
    }

    /// The associated data an end-to-end seal over this cell must cover.
    pub fn aad(&self) -> (aad: [u8; AAD_LEN])
        ensures
            aad@ == self.aad_bytes(),
    {
        let mut aad = [0u8; AAD_LEN];
        aad[0] = VERSION;
        aad[1] = self.flags;
        copy_into(&mut aad, 2, &self.tag);
        copy_into(&mut aad, 18, &self.nonce);
        assert(aad@ =~= self.aad_bytes());
        aad
    }
}

/// The hop fields, spent by relays and outside the end-to-end associated data.
#[derive(Debug, Clone, Copy, PartialEq, Eq)]
pub struct Hops {
    ttl: u8,
    copies: u8,
}

impl Hops {
    #[verifier::type_invariant]
    spec fn in_range(self) -> bool {
        self.ttl <= MAX_TTL && self.copies <= MAX_COPIES
    }

    /// Hops still to travel.
    pub closed spec fn ttl_left(self) -> u8 {
        self.ttl
    }

    /// Copies still to hand out.
    pub closed spec fn copies_left(self) -> u8 {
        self.copies
    }

    /// Builds a hop budget.
    ///
    /// # Errors
    ///
    /// Returns [`Error::TtlOutOfRange`] or [`Error::CopiesOutOfRange`] if
    /// either field is above its maximum.
    pub fn new(ttl: u8, copies: u8) -> (result: Result<Self, Error>)
        ensures
            ttl > MAX_TTL ==> result == Err::<Self, Error>(Error::TtlOutOfRange(ttl)),
            ttl <= MAX_TTL && copies > MAX_COPIES ==> result == Err::<Self, Error>(
                Error::CopiesOutOfRange(copies),
            ),
            ttl <= MAX_TTL && copies <= MAX_COPIES ==> result is Ok,
            result matches Ok(hops) ==> hops.ttl_left() == ttl && hops.copies_left() == copies,
    {
        if ttl > MAX_TTL {
            return Err(Error::TtlOutOfRange(ttl));
        }
        if copies > MAX_COPIES {
            return Err(Error::CopiesOutOfRange(copies));
        }
        Ok(Self { ttl, copies })
    }

    /// Hops this cell may still travel.
    pub fn ttl(self) -> (ttl: u8)
        ensures
            ttl == self.ttl_left(),
            ttl <= MAX_TTL,
    {
        proof {
            use_type_invariant(&self);
        }
        self.ttl
    }

    /// Copies the carrier may still hand out.
    pub fn copies(self) -> (copies: u8)
        ensures
            copies == self.copies_left(),
            copies <= MAX_COPIES,
    {
        proof {
            use_type_invariant(&self);
        }
        self.copies
    }

    /// The same budget one hop poorer, or `None` when it is spent.
    pub fn spent(self) -> (spent: Option<Self>)
        ensures
            spent is None <==> self.ttl_left() == 0,
            spent matches Some(next) ==> next.ttl_left() == self.ttl_left() - 1
                && next.copies_left() == self.copies_left(),
    {
        proof {
            use_type_invariant(&self);
        }
        if self.ttl == 0 {
            None
        } else {
            Some(Self { ttl: self.ttl - 1, copies: self.copies })
        }
    }
}

/// The sealed payload of a cell: one ratchet frame and its tag.
#[derive(Debug, Clone, Copy, PartialEq, Eq)]
pub struct SealedBody {
    /// The encrypted payload, one ratchet frame.
    pub ciphertext: [u8; CIPHERTEXT_LEN],
    /// The Poly1305 tag over that payload.
    pub mac: [u8; MAC_LEN],
}

/// One cell.
#[derive(Debug, Clone, Copy, PartialEq, Eq)]
pub struct Cell512 {
    header: CellHeader,
    hops: Hops,
    body: SealedBody,
}

impl View for Cell512 {
    type V = CellView;

    closed spec fn view(&self) -> CellView {
        CellView {
            flags: self.header.flags,
            ttl: self.hops.ttl,
            copies: self.hops.copies,
            tag: self.header.tag@,
            nonce: self.header.nonce@,
            ciphertext: self.body.ciphertext@,
            mac: self.body.mac@,
        }
    }
}

/// What reading a cell gives, by what it holds.
pub open spec fn cell_result_view(result: Result<Cell512, Error>) -> Result<CellView, Error> {
    match result {
        Ok(cell) => Ok(cell@),
        Err(error) => Err(error),
    }
}

impl Cell512 {
    /// Assembles a cell from the authenticated head, the relay-mutable hop
    /// fields and the sealed payload.
    pub fn new(header: CellHeader, hops: Hops, body: SealedBody) -> (cell: Self)
        ensures
            cell@ == (CellView {
                flags: header.flags_byte(),
                ttl: hops.ttl_left(),
                copies: hops.copies_left(),
                tag: header.tag_bytes(),
                nonce: header.nonce_bytes(),
                ciphertext: body.ciphertext@,
                mac: body.mac@,
            }),
            valid_cell(cell@),
    {
        proof {
            use_type_invariant(&hops);
        }
        Self { header, hops, body }
    }

    /// Reads a cell off the wire.
    ///
    /// # Errors
    ///
    /// Returns [`Error::InvalidLength`] unless the input is exactly
    /// [`CELL_LEN`] bytes, [`Error::UnsupportedVersion`] for a version this
    /// build does not speak, and [`Error::TtlOutOfRange`] or
    /// [`Error::CopiesOutOfRange`] for a hop field above its maximum.
    pub fn from_bytes(bytes: &[u8]) -> (result: Result<Self, Error>)
        ensures
            cell_result_view(result) == parse_cell(bytes@),
    {
        if bytes.len() != CELL_LEN {
            return Err(Error::InvalidLength);
        }
        if bytes[VERSION_AT] != VERSION {
            return Err(Error::UnsupportedVersion(bytes[VERSION_AT]));
        }
        let hops = match Hops::new(bytes[TTL_AT], bytes[COPIES_AT]) {
            Ok(hops) => hops,
            Err(error) => return Err(error),
        };
        let tag: [u8; TAG_LEN] = take_array(bytes, TAG_AT);
        let nonce: [u8; NONCE_LEN] = take_array(bytes, NONCE_AT);
        let ciphertext: [u8; CIPHERTEXT_LEN] = take_array(bytes, CIPHERTEXT_AT);
        let mac: [u8; MAC_LEN] = take_array(bytes, MAC_AT);
        let cell = Self {
            header: CellHeader { flags: bytes[FLAGS_AT], tag, nonce },
            hops,
            body: SealedBody { ciphertext, mac },
        };
        assert(cell@ == parse_cell(bytes@)->Ok_0);
        Ok(cell)
    }

    /// Writes the cell out in wire order.
    pub fn to_bytes(&self) -> (bytes: [u8; CELL_LEN])
        ensures
            bytes@ == cell_wire(self@),
    {
        let mut bytes = [0u8; CELL_LEN];
        bytes[VERSION_AT] = VERSION;
        bytes[FLAGS_AT] = self.header.flags;
        bytes[TTL_AT] = self.hops.ttl;
        bytes[COPIES_AT] = self.hops.copies;
        copy_into(&mut bytes, TAG_AT, &self.header.tag);
        copy_into(&mut bytes, NONCE_AT, &self.header.nonce);
        copy_into(&mut bytes, CIPHERTEXT_AT, &self.body.ciphertext);
        copy_into(&mut bytes, MAC_AT, &self.body.mac);
        assert(bytes@ =~= cell_wire(self@));
        bytes
    }

    /// The associated data of the end-to-end seal.
    pub fn aad(&self) -> (aad: [u8; AAD_LEN])
        ensures
            aad@ == cell_aad(self@),
    {
        self.header.aad()
    }

    /// The flags byte. It carries no meaning and exists to be read only here,
    /// where the associated data is assembled.
    pub fn flags(&self) -> (flags: u8)
        ensures
            flags == self@.flags,
    {
        self.header.flags
    }

    /// Hops this cell may still travel.
    pub fn ttl(&self) -> (ttl: u8)
        ensures
            ttl == self@.ttl,
            ttl <= MAX_TTL,
    {
        self.hops.ttl()
    }

    /// Copies the carrier may still hand out.
    pub fn copies(&self) -> (copies: u8)
        ensures
            copies == self@.copies,
            copies <= MAX_COPIES,
    {
        self.hops.copies()
    }

    /// The per-message epoch tag.
    pub fn tag(&self) -> (tag: &[u8; TAG_LEN])
        ensures
            tag@ == self@.tag,
    {
        &self.header.tag
    }

    /// The nonce of the end-to-end seal.
    pub fn nonce(&self) -> (nonce: &[u8; NONCE_LEN])
        ensures
            nonce@ == self@.nonce,
    {
        &self.header.nonce
    }

    /// The encrypted payload.
    pub fn ciphertext(&self) -> (ciphertext: &[u8; CIPHERTEXT_LEN])
        ensures
            ciphertext@ == self@.ciphertext,
    {
        &self.body.ciphertext
    }

    /// The Poly1305 tag over that payload.
    pub fn mac(&self) -> (mac: &[u8; MAC_LEN])
        ensures
            mac@ == self@.mac,
    {
        &self.body.mac
    }

    /// The cell a relay passes on, one hop poorer, or `None` when the hop
    /// budget is spent and the cell must be dropped.
    pub fn forwarded(&self) -> (next: Option<Self>)
        ensures
            next is None <==> self@.ttl == 0,
            next matches Some(cell) ==> cell@ == spent_cell(self@),
    {
        match self.hops.spent() {
            Some(hops) => Some(Self { header: self.header, hops, body: self.body }),
            None => None,
        }
    }
}

/// Every field of a cell sits at its fixed offsets: version 0x01 in byte 0,
/// flags 1, ttl 2, copies 3, tag 4..20, nonce 20..44, ciphertext 44..496 and
/// mac 496..512. Reading accepts exactly 512 bytes that start with 0x01 and
/// carry a ttl of at most 64 and at most 15 copies, and takes each field
/// from there; writing puts each field there.
pub proof fn lemma_cell_field_offsets(bytes: Seq<u8>, v: CellView)
    requires
        valid_cell(v),
    ensures
        parse_cell(bytes) is Ok <==> (bytes.len() == 512 && bytes[0] == 0x01 && bytes[2] <= 64
            && bytes[3] <= 15),
        parse_cell(bytes) matches Ok(read) ==> {
            &&& read.flags == bytes[1]
            &&& read.ttl == bytes[2]
            &&& read.copies == bytes[3]
            &&& read.tag == bytes.subrange(4, 20)
            &&& read.nonce == bytes.subrange(20, 44)
            &&& read.ciphertext == bytes.subrange(44, 496)
            &&& read.mac == bytes.subrange(496, 512)
        },
        ({
            let b = cell_wire(v);
            &&& b.len() == 512
            &&& b[0] == 0x01
            &&& b[1] == v.flags
            &&& b[2] == v.ttl
            &&& b[3] == v.copies
            &&& b.subrange(4, 20) == v.tag
            &&& b.subrange(20, 44) == v.nonce
            &&& b.subrange(44, 496) == v.ciphertext
            &&& b.subrange(496, 512) == v.mac
        }),
        cell_aad(v) == seq![0x01u8, v.flags] + v.tag + v.nonce,
{
    let b = cell_wire(v);
    assert(b.subrange(4, 20) =~= v.tag);
    assert(b.subrange(20, 44) =~= v.nonce);
    assert(b.subrange(44, 496) =~= v.ciphertext);
    assert(b.subrange(496, 512) =~= v.mac);
}

/// Writing a valid cell out and reading it back gives the same cell, in
/// exactly [`CELL_LEN`] bytes.
pub proof fn lemma_cell_round_trip(v: CellView)
    requires
        valid_cell(v),
    ensures
        cell_wire(v).len() == CELL_LEN,
        parse_cell(cell_wire(v)) == Ok::<CellView, Error>(v),
{
    let b = cell_wire(v);
    assert(b.subrange(4, 20) =~= v.tag);
    assert(b.subrange(20, 44) =~= v.nonce);
    assert(b.subrange(44, 496) =~= v.ciphertext);
    assert(b.subrange(496, 512) =~= v.mac);
}

/// Whatever reads as a cell is written back out as exactly the bytes it was
/// read from.
pub proof fn lemma_cell_parse_is_exact(bytes: Seq<u8>)
    requires
        parse_cell(bytes) is Ok,
    ensures
        valid_cell(parse_cell(bytes)->Ok_0),
        cell_wire(parse_cell(bytes)->Ok_0) == bytes,
{
    assert(cell_wire(parse_cell(bytes)->Ok_0) =~= bytes);
}

/// The associated data is the two runs of the wire layout that no relay may
/// change: bytes 0..2 and 4..44.
pub proof fn lemma_cell_aad_is_the_immutable_runs(v: CellView)
    requires
        valid_cell(v),
    ensures
        cell_aad(v) == cell_wire(v).subrange(0, 2) + cell_wire(v).subrange(4, 44),
{
    assert(cell_aad(v) =~= cell_wire(v).subrange(0, 2) + cell_wire(v).subrange(4, 44));
}

/// Spending a hop changes only the hop count: the associated data, and with it
/// every end-to-end authenticated byte, stays the same.
pub proof fn lemma_forwarding_keeps_the_aad(v: CellView)
    requires
        valid_cell(v),
        v.ttl > 0,
    ensures
        valid_cell(spent_cell(v)),
        cell_aad(spent_cell(v)) == cell_aad(v),
        spent_cell(v).ttl == v.ttl - 1,
{
}

} // verus!
