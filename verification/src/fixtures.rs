//! Decoding the hex strings that test vectors are written in.

use vstd::prelude::*;
use vstd::string::StringSliceAdditionalSpecFns;

verus! {

/// The value of one ASCII hex digit, either case.
pub open spec fn hex_digit(c: u8) -> Option<u8> {
    if 0x30 <= c <= 0x39 {
        Some((c - 0x30) as u8)
    } else if 0x61 <= c <= 0x66 {
        Some((c - 0x61 + 10) as u8)
    } else if 0x41 <= c <= 0x46 {
        Some((c - 0x41 + 10) as u8)
    } else {
        None
    }
}

/// The byte two hex digits encode, the first the high one.
pub open spec fn hex_pair(high: u8, low: u8) -> Option<u8> {
    match (hex_digit(high), hex_digit(low)) {
        (Some(high), Some(low)) => Some((high * 16 + low) as u8),
        _ => None,
    }
}

/// Whether `text` is an even number of characters, each pair a byte.
pub open spec fn is_hex(text: Seq<u8>) -> bool {
    &&& text.len() % 2 == 0
    &&& forall|i: int| 0 <= i < text.len() / 2 ==> #[trigger] hex_pair(text[2 * i], text[2 * i + 1]) is Some
}

/// The bytes a hex text encodes, pair by pair.
pub open spec fn hex_decoded(text: Seq<u8>) -> Seq<u8> {
    Seq::new(text.len() / 2, |i: int| hex_pair(text[2 * i], text[2 * i + 1])->Some_0)
}

fn digit(c: u8) -> (value: Option<u8>)
    ensures
        value == hex_digit(c),
{
    if 0x30 <= c && c <= 0x39 {
        Some(c - 0x30)
    } else if 0x61 <= c && c <= 0x66 {
        Some(c - 0x61 + 10)
    } else if 0x41 <= c && c <= 0x46 {
        Some(c - 0x41 + 10)
    } else {
        None
    }
}

fn pair(high: u8, low: u8) -> (value: Option<u8>)
    ensures
        value == hex_pair(high, low),
{
    match (digit(high), digit(low)) {
        (Some(high), Some(low)) => Some(high * 16 + low),
        _ => None,
    }
}

/// The bytes a hex string encodes.
pub fn hex(encoded: &str) -> (bytes: Vec<u8>)
    requires
        is_hex(encoded.spec_bytes()),
    ensures
        bytes@ == hex_decoded(encoded.spec_bytes()),
{
    let text = encoded.as_bytes();
    let mut bytes: Vec<u8> = Vec::new();
    let mut i: usize = 0;
    while i < text.len() / 2
        invariant
            text@ == encoded.spec_bytes(),
            is_hex(text@),
            i <= text@.len() / 2,
            bytes@ == hex_decoded(text@).subrange(0, i as int),
        decreases text@.len() / 2 - i,
    {
        assert(hex_pair(text@[2 * i], text@[2 * i + 1]) is Some);
        match pair(text[2 * i], text[2 * i + 1]) {
            Some(byte) => bytes.push(byte),
            None => {},
        }
        i = i + 1;
        assert(bytes@ =~= hex_decoded(text@).subrange(0, i as int));
    }
    assert(hex_decoded(text@).subrange(0, i as int) =~= hex_decoded(text@));
    bytes
}

/// The bytes a hex string encodes, as an array of the expected length.
pub fn hex_array<const N: usize>(encoded: &str) -> (bytes: [u8; N])
    requires
        is_hex(encoded.spec_bytes()),
        encoded.spec_bytes().len() == 2 * N,
    ensures
        bytes@ == hex_decoded(encoded.spec_bytes()),
{
    let decoded = hex(encoded);
    let mut bytes = [0u8; N];
    let mut i: usize = 0;
    while i < N
        invariant
            decoded@.len() == N,
            i <= N,
            bytes@.len() == N,
            forall|j: int| 0 <= j < i ==> bytes@[j] == decoded@[j],
        decreases N - i,
    {
        bytes[i] = decoded[i];
        i = i + 1;
    }
    assert(bytes@ =~= decoded@);
    bytes
}

} // verus!
