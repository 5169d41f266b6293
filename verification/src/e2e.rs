//! End-to-end security: hybrid post-quantum X3DH and the Double Ratchet.

pub mod x3dh;
pub mod ratchet;
