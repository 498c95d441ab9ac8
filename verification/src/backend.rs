//! The contract of a key-value backend.
//!
//! A backend is a durable store of byte strings under 64-bit keys,
//! partitioned into named tables. The world façade and the chunk cache are
//! verified against this contract and nothing else, so they work the same
//! over every engine that keeps it.

use vstd::prelude::*;
use crate::errors::StorageError;

verus! {

/// What a backend holds: bytes under a table name and a 64-bit key.
pub type Entries = Map<(Seq<char>, u64), Seq<u8>>;

/// `entries` after the pairs of `data` were stored in `table`, in order:
/// of two pairs with one key the later stays.
pub open spec fn batch_applied(entries: Entries, table: Seq<char>, data: Seq<(u64, Seq<u8>)>)
    -> Entries
    decreases data.len(),
{
    if data.len() == 0 {
        entries
    } else {
        batch_applied(entries, table, data.drop_last()).insert(
            (table, data.last().0),
            data.last().1,
        )
    }
}

/// Whether `found` is what `entries` hold under `key` in `table`.
pub open spec fn is_held(entries: Entries, table: Seq<char>, key: u64, found: Option<Seq<u8>>)
    -> bool {
    match found {
        Some(value) => entries.contains_key((table, key)) && entries[(table, key)] == value,
        None => !entries.contains_key((table, key)),
    }
}

/// Whether `found` is what `entries` hold under each of `keys` in `table`,
/// one for one.
pub open spec fn all_held(
    entries: Entries,
    table: Seq<char>,
    keys: Seq<u64>,
    found: Seq<Option<Seq<u8>>>,
) -> bool {
    found.len() == keys.len() && forall|i: int|
        0 <= i < keys.len() ==> is_held(entries, table, keys[i], #[trigger] found[i])
}

/// A durable key-value store. Every operation may fail for reasons of its
/// own (the disk, the engine); a failed write leaves the entries as they
/// were.
pub trait DatabaseBackend {
    /// The entries visible to this process: the model that the contracts
    /// below speak of. A backend in verified code states its own. The body
    /// here is a placeholder for a backend written in plain Rust, which
    /// can state no model: it lets such a backend compile and claims
    /// nothing of it. Generic code never sees this body, and of a backend
    /// that keeps it nothing is proved: the contracts below are then what
    /// its author promises, read over what the engine holds.
    open spec fn entries(&self) -> Entries {
        Map::empty()
    }

    /// Declares `table`. The entries stay as they are.
    fn create_table(&mut self, table: String) -> (r: Result<(), StorageError>)
        ensures
            final(self).entries() == old(self).entries(),
    ;

    /// Stores `value` under a key that is not there yet. A key that is
    /// there is an error, and `KeyExists` is reported for no other reason.
    fn insert(&mut self, table: String, key: u64, value: Vec<u8>) -> (r: Result<(), StorageError>)
        ensures
            match r {
                Ok(()) => !old(self).entries().contains_key((table@, key))
                    && final(self).entries() == old(self).entries().insert((table@, key), value@),
                Err(e) => final(self).entries() == old(self).entries() && (e is KeyExists ==> e
                    == StorageError::KeyExists(key) && old(self).entries().contains_key(
                    (table@, key),
                )),
            },
    ;

    /// The bytes under `key`, or `None` where the key is not there.
    fn get(&self, table: String, key: u64) -> (r: Result<Option<Vec<u8>>, StorageError>)
        ensures
            r matches Ok(found) ==> is_held(self.entries(), table@, key, found.deep_view()),
    ;

    /// Removes `key`. A backend may report `KeyNotFound` where the key is
    /// not there, and reports it for no other reason.
    fn delete(&mut self, table: String, key: u64) -> (r: Result<(), StorageError>)
        ensures
            match r {
                Ok(()) => final(self).entries() == old(self).entries().remove((table@, key)),
                Err(e) => final(self).entries() == old(self).entries() && (e is KeyNotFound ==> e
                    == StorageError::KeyNotFound(key) && !old(self).entries().contains_key(
                    (table@, key),
                )),
            },
    ;

    /// Replaces the bytes under a key that is there. `KeyNotFound` is
    /// reported where it is not, and for no other reason.
    fn update(&mut self, table: String, key: u64, value: Vec<u8>) -> (r: Result<(), StorageError>)
        ensures
            match r {
                Ok(()) => old(self).entries().contains_key((table@, key))
                    && final(self).entries() == old(self).entries().insert((table@, key), value@),
                Err(e) => final(self).entries() == old(self).entries() && (e is KeyNotFound ==> e
                    == StorageError::KeyNotFound(key) && !old(self).entries().contains_key(
                    (table@, key),
                )),
            },
    ;

    /// Stores `value` under `key`, whether or not the key is there, and
    /// says whether it was.
    fn upsert(&mut self, table: String, key: u64, value: Vec<u8>) -> (r: Result<
        bool,
        StorageError,
    >)
        ensures
            match r {
                Ok(prior) => prior == old(self).entries().contains_key((table@, key))
                    && final(self).entries() == old(self).entries().insert((table@, key), value@),
                Err(_) => final(self).entries() == old(self).entries(),
            },
    ;

    /// Whether `key` is there.
    fn key_exists(&self, table: String, key: u64) -> (r: Result<bool, StorageError>)
        ensures
            r matches Ok(found) ==> found == self.entries().contains_key((table@, key)),
    ;

    /// The name and version of the engine.
    fn details(&self) -> String;

    /// Stores every pair of `data`, all of them or none.
    fn batch_insert(&mut self, table: String, data: Vec<(u64, Vec<u8>)>) -> (r: Result<
        (),
        StorageError,
    >)
        ensures
            match r {
                Ok(()) => final(self).entries() == batch_applied(
                    old(self).entries(),
                    table@,
                    data.deep_view(),
                ),
                Err(_) => final(self).entries() == old(self).entries(),
            },
    ;

    /// What is held under each of `keys`, in their order.
    fn batch_get(&self, table: String, keys: Vec<u64>) -> (r: Result<
        Vec<Option<Vec<u8>>>,
        StorageError,
    >)
        ensures
            r matches Ok(found) ==> all_held(self.entries(), table@, keys@, found.deep_view()),
    ;

    /// Makes every completed write durable: where it succeeds, what is
    /// secured is what the backend holds. The entries stay as they are.
    fn flush(&mut self) -> (r: Result<(), StorageError>)
        ensures
            final(self).entries() == old(self).entries(),
            r is Ok ==> final(self).durable() == final(self).entries(),
    ;

    /// Closes the store. The entries stay as they are.
    fn close(&mut self) -> (r: Result<(), StorageError>)
        ensures
            final(self).entries() == old(self).entries(),
    ;

    /// The entries that are secured: what would be found if the process
    /// stopped now. Writes are visible at once and secured by a flush at
    /// the latest; nothing else is said of when a write is secured. The
    /// body is a placeholder as that of `entries` is: a backend in
    /// verified code states its own.
    open spec fn durable(&self) -> Entries {
        Map::empty()
    }
}

} // verus!
