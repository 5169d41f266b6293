# quietwire

The security core of QUIETWIRE, written in Verus: the cryptographic
primitives and at-rest key hierarchy, the fixed-size packet layer, and the
end-to-end session layer (hybrid post-quantum X3DH and the Double Ratchet),
with contracts proved by the verifier.

## Layout

- `src/crypto/` — X25519, Ed25519, ML-KEM-768, XChaCha20-Poly1305, HKDF and
  HMAC over SHA-512, BLAKE3, Argon2id, wiping key buffers and constant-time
  comparison, and the KEK/DEK hierarchy. Each call into a cryptographic crate
  sits in a small function whose contract names what the crate computes; the
  code around it is verified against those names.
- `src/packet/` — the 512-byte cell and the 396-byte payload: layouts,
  parsers that refuse exactly what the format refuses, and the hop budget.
- `src/e2e/` — X3DH session establishment (both parties derive the same key)
  and the Double Ratchet: exact contracts for sending and receiving, the
  bounds on kept keys and chains in every state, the rule that a refused
  frame leaves the session as it was, and that a frame opens once.
- `src/memtest.rs` — the bookkeeping of a test allocator that counts freed
  blocks still holding a secret.
- `src/fixtures.rs`, `src/fuzz.rs`, `src/text.rs`, `src/wire.rs` — hex
  decoding of test vectors, the helpers fuzz targets share, numbers in error
  messages, and byte-copying helpers.
- `app/` — ordinary Rust that cannot be verified: the global allocator hooks
  and their byte loads, fixture files on disk, fuzz drivers, and the
  constant-time benches.
- `tests/` — the test suites.

## What this crate does not do

Keys are wiped when dropped, but they are not `mlock`ed, nor placed each on a
dedicated 16 KiB page: the page-locking crate that does this is not among the
dependencies, so `SecretKey` has no `is_memory_locked`, and a key can reach
swap or a core dump.
