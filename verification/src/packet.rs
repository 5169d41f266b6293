//! The fixed-size wire formats: the 512-byte cell and the 396-byte payload.

pub mod cell;
pub mod payload;
