//! The backends that come with the crate, and the rules of those that
//! stand on an embedded engine.

pub mod envvars;
pub mod redb;
pub mod rocksdb;
pub mod script;
pub mod surrealkv;
