//! Decoding the hex strings test vectors are written in.

use quietwire::fixtures::{hex, hex_array};

#[test]
fn hex_decodes_each_pair_of_digits_in_either_case() {
    assert_eq!(hex(""), Vec::<u8>::new());
    assert_eq!(hex("00ff7fA0"), vec![0x00, 0xff, 0x7f, 0xa0]);
    assert_eq!(hex("DeadBEEF"), vec![0xde, 0xad, 0xbe, 0xef]);
}

#[test]
fn hex_array_gives_an_array_of_the_expected_length() {
    let bytes: [u8; 3] = hex_array("010203");
    assert_eq!(bytes, [1, 2, 3]);
}
