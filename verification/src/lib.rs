//! Formats a raw byte buffer into a row-oriented hex dump: each row covers up
//! to 16 consecutive bytes, annotated with a starting offset, the per-byte
//! hexadecimal encoding, and a printable ASCII rendering.

pub mod dump;
pub mod hexfmt;
pub mod laws;
