//! The flags byte is uniformly random and means nothing.

use quietwire::packet::cell::{CellHeader, NONCE_LEN, TAG_LEN};

const CELLS: usize = 1_000_000;
const BUCKETS: usize = 256;
/// The 0.01 point of the chi-squared distribution with 255 degrees of freedom.
/// A uniform byte exceeds it once in a hundred runs.
const CHI_SQUARED_CRITICAL: f64 = 310.457;
/// Five sigma on a million fair coins.
const BIT_TOLERANCE: u64 = 2_500;

fn flags_byte() -> u8 {
    CellHeader::new([0u8; TAG_LEN], [0u8; NONCE_LEN])
        .unwrap()
        .aad()[1]
}

#[test]
fn qw_u_pkt_102_the_flags_byte_is_uniform_over_a_million_cells() {
    let mut counts = [0u64; BUCKETS];
    for _ in 0..CELLS {
        counts[flags_byte() as usize] += 1;
    }

    #[allow(clippy::cast_precision_loss)]
    let expected = CELLS as f64 / BUCKETS as f64;
    #[allow(clippy::cast_precision_loss)]
    let chi_squared: f64 = counts
        .iter()
        .map(|&count| {
            let deviation = count as f64 - expected;
            deviation * deviation / expected
        })
        .sum();

    assert!(
        chi_squared < CHI_SQUARED_CRITICAL,
        "chi-squared {chi_squared} over {BUCKETS} buckets is not uniform"
    );
}

#[test]
fn qw_u_pkt_102_every_bit_is_set_about_half_the_time() {
    let mut set = [0u64; 8];
    for _ in 0..CELLS {
        let flags = flags_byte();
        for (bit, count) in set.iter_mut().enumerate() {
            *count += u64::from(flags >> bit & 1);
        }
    }

    let half = (CELLS / 2) as u64;
    for (bit, count) in set.iter().enumerate() {
        assert!(
            count.abs_diff(half) < BIT_TOLERANCE,
            "bit {bit} was set {count} times in {CELLS} cells"
        );
    }
}

#[test]
fn a_header_with_a_given_flags_byte_carries_it_in_its_associated_data() {
    let tag = [0x11u8; TAG_LEN];
    let nonce = [0x22u8; NONCE_LEN];

    let aad = CellHeader::with_flags(0x5c, tag, nonce).aad();

    assert_eq!(aad[0], quietwire::packet::cell::VERSION);
    assert_eq!(aad[1], 0x5c);
    assert_eq!(&aad[2..2 + TAG_LEN], &tag);
    assert_eq!(&aad[2 + TAG_LEN..], &nonce);
}
