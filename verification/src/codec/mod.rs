//! The binary form of what the crate stores.

pub mod chunk;
pub mod sequence;
pub mod varint;
pub mod wire;
