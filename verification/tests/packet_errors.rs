//! The sentences packet errors are shown as, numbers included.

use quietwire::packet::cell::Error as CellError;
use quietwire::packet::payload::Error as PayloadError;

#[test]
fn cell_errors_name_the_value_that_was_refused() {
    assert_eq!(CellError::InvalidLength.message(), "a cell is exactly 512 bytes");
    assert_eq!(
        CellError::UnsupportedVersion(0x02).message(),
        "unsupported version 0x02"
    );
    assert_eq!(
        CellError::UnsupportedVersion(0xab).message(),
        "unsupported version 0xab"
    );
    assert_eq!(CellError::TtlOutOfRange(65).message(), "ttl 65 above 64");
    assert_eq!(CellError::TtlOutOfRange(200).message(), "ttl 200 above 64");
    assert_eq!(CellError::CopiesOutOfRange(16).message(), "copies 16 above 15");
    assert_eq!(
        CellError::Rng.message(),
        "random number generator unavailable"
    );
}

#[test]
fn payload_errors_name_the_value_that_was_refused() {
    assert_eq!(
        PayloadError::InvalidLength.message(),
        "a payload is exactly 396 bytes"
    );
    assert_eq!(
        PayloadError::BodyTooLong(366).message(),
        "body of 366 bytes above 365"
    );
    assert_eq!(
        PayloadError::BodyTooLong(1_000_000).message(),
        "body of 1000000 bytes above 365"
    );
    assert_eq!(
        PayloadError::ReservedContentType.message(),
        "content type 0x06 is withdrawn from v1"
    );
    assert_eq!(
        PayloadError::UnknownContentType(0x09).message(),
        "unknown content type 0x09"
    );
    assert_eq!(
        PayloadError::EmptyFragmentSet.message(),
        "a fragment set holds at least one fragment"
    );
    assert_eq!(
        PayloadError::FragmentOutOfSet.message(),
        "fragment index past the end of its set"
    );
}
