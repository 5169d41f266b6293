//! Primitives and key hierarchy: X25519, Ed25519, ML-KEM-768,
//! XChaCha20-Poly1305, Argon2id, BLAKE3, wiping and constant-time helpers.
//!
//! This is the only module that talks to cryptographic libraries directly.
//! Everything else goes through the types here.

pub mod aead;
pub mod ed25519;
mod error;
pub mod hash;
pub mod hierarchy;
pub mod kdf;
pub mod mlkem;
pub mod password;
pub(crate) mod rng;
mod secret;
mod stack;
pub mod x25519;

pub use error::{error_message, Error};
pub use secret::{key_bytes_held, secret_buffer_held, KeyBytes, SecretBuffer, SecretKey, KEY_LEN};
