//! Chunk storage for a voxel world: stable chunk digests, a compact binary
//! chunk codec, pluggable compression, a key-value backend contract, the
//! world façade built on it, and a read-through chunk cache.

pub mod backend;
pub mod backends;
pub mod chunk_format;
pub mod codec;
pub mod compressors;
pub mod config;
pub mod database;
pub mod endian;
pub mod errors;
pub mod hashing;
pub mod metadata;
pub mod text;
pub mod validity;
pub mod world;
