//! Every primitive error has a message of its own.

use quietwire::crypto::Error;

#[test]
fn every_error_has_its_own_non_empty_message() {
    let messages = [
        Error::InvalidLength,
        Error::Authentication,
        Error::Rng,
        Error::Kdf,
        Error::InvalidPublicKey,
        Error::InvalidSignature,
    ]
    .map(|error| error.message().to_string());

    for (i, message) in messages.iter().enumerate() {
        assert!(!message.is_empty());
        assert!(!messages[i + 1..].contains(message), "{message}");
    }
}
