//! QUIETWIRE core: primitives and the at-rest key hierarchy, the fixed-size
//! packet layer, and end-to-end sessions (hybrid X3DH and the Double Ratchet).

pub mod crypto;
pub mod e2e;
pub mod fixtures;
pub mod fuzz;
pub mod memtest;
pub mod packet;
pub mod text;
pub mod wire;
