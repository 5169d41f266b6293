use vstd::prelude::*;

verus! {

/// Why a cryptographic operation did not produce a result.
///
/// Deliberately coarse: callers never learn more about a failed decryption
/// than that it failed.
#[derive(Debug, Clone, Copy, PartialEq, Eq)]
pub enum Error {
    /// An input or requested output had a length the operation does not accept.
    InvalidLength,
    /// Sealed data did not authenticate under the given key, nonce and associated data.
    Authentication,
    /// The operating system random number generator failed.
    Rng,
    /// The password KDF rejected its parameters or could not allocate its memory.
    Kdf,
    /// A peer public key was malformed, or would force a predictable shared secret.
    InvalidPublicKey,
    /// A signature did not verify under the given key and message.
    InvalidSignature,
}

/// The sentence each error is shown as.
pub open spec fn error_message(error: Error) -> &'static str {
    match error {
        Error::InvalidLength => "invalid length",
        Error::Authentication => "authentication failed",
        Error::Rng => "random number generator unavailable",
        Error::Kdf => "password key derivation failed",
        Error::InvalidPublicKey => "invalid public key",
        Error::InvalidSignature => "invalid signature",
    }
}

impl Error {
    /// The sentence this error is shown as.
    pub fn message(&self) -> (text: &'static str)
        ensures
            text == error_message(*self),
    {
        match self {
            Error::InvalidLength => "invalid length",
            Error::Authentication => "authentication failed",
            Error::Rng => "random number generator unavailable",
            Error::Kdf => "password key derivation failed",
            Error::InvalidPublicKey => "invalid public key",
            Error::InvalidSignature => "invalid signature",
        }
    }
}

} // verus!
