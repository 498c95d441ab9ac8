//! The rules of the backend that stands on an append-log engine with one
//! keyspace.
//!
//! The engine knows no tables: a key is stored under the bytes of its
//! table's name followed by its own eight big-endian bytes. A delete of a
//! key that is not there is no error.

use vstd::prelude::*;
use vstd::string::StringExecFns;
use vstd::utf8::{encode_utf8, encode_utf8_decode_utf8};
use crate::backends::script::{
    decide, decision_fits, failure, failure_of, keys_probed, meets_contract, probes_match, removed,
    service_failure, service_failure_of, stored, Decision, Request, Service, Stage, Table,
};
use crate::codec::sequence::put_bytes;
use crate::endian::{be_bytes_u64, lemma_be_bytes_one_to_one, lemma_u64_read_written, put_u64_be};
use crate::errors::StorageError;

verus! {

/// The bytes under which `key` of `table` is stored.
pub open spec fn stored_key(table: Seq<char>, key: u64) -> Seq<u8> {
    encode_utf8(table) + be_bytes_u64(key)
}

/// No two keys share their bytes, whatever their tables.
pub proof fn lemma_stored_key_one_to_one(
    table: Seq<char>,
    key: u64,
    other_table: Seq<char>,
    other_key: u64,
)
    requires
        stored_key(table, key) == stored_key(other_table, other_key),
    ensures
        table == other_table,
        key == other_key,
{
    lemma_u64_read_written(key);
    lemma_u64_read_written(other_key);
    let a = encode_utf8(table);
    let b = encode_utf8(other_table);
    let whole = stored_key(table, key);
    assert(be_bytes_u64(key).len() == 8 && be_bytes_u64(other_key).len() == 8);
    assert(a.len() == whole.len() - 8);
    assert(b.len() == whole.len() - 8);
    assert(a =~= whole.take(a.len() as int));
    assert(b =~= stored_key(other_table, other_key).take(b.len() as int));
    assert(be_bytes_u64(key) =~= whole.skip(a.len() as int));
    assert(be_bytes_u64(other_key) =~= stored_key(other_table, other_key).skip(b.len() as int));
    lemma_be_bytes_one_to_one(key, other_key);
    encode_utf8_decode_utf8(table);
    encode_utf8_decode_utf8(other_table);
}

/// The rules of the append-log backend.
#[derive(Debug, Clone, Copy, PartialEq, Eq, Structural)]
pub struct SurrealKVBackend;

impl SurrealKVBackend {
    /// The directory to open the store in, persisted to disk. No path is
    /// `InvalidPath`.
    pub fn initialize(store_path: Option<String>) -> (r: Result<String, StorageError>)
        ensures
            r == (match store_path {
                None => Err::<String, StorageError>(StorageError::InvalidPath),
                Some(path) => Ok(path),
            }),
    {
        match store_path {
            None => Err(StorageError::InvalidPath),
            Some(path) => Ok(path),
        }
    }

    /// The bytes under which `key` of `table` is stored.
    pub fn modified_key(table: &str, key: u64) -> (r: Vec<u8>)
        ensures
            r@ == stored_key(table@, key),
    {
        let mut out: Vec<u8> = Vec::new();
        put_bytes(&mut out, table.as_bytes());
        put_u64_be(&mut out, key);
        assert(out@ =~= stored_key(table@, key));
        out
    }

    /// Decides `request` on what was found under its keys: as
    /// [`decide`](crate::backends::script::decide), with a delete of a
    /// missing key passed over.
    pub fn decide(request: Request, found: Vec<Option<Vec<u8>>>) -> (r: Decision)
        ensures
            decision_fits(request@, false, found@, r),
            forall|table: Table|
                probes_match(table, keys_probed(request@), found.deep_view()) ==> match r {
                    Decision::Finish(Ok(reply)) => meets_contract(
                        request@,
                        table,
                        Ok(reply@),
                        table,
                    ),
                    Decision::Finish(Err(e)) => meets_contract(request@, table, Err(e), table),
                    Decision::Apply(stores, removals, reply) => meets_contract(
                        request@,
                        table,
                        Ok(reply@),
                        removed(stored(table, stores.deep_view()), removals@),
                    ),
                },
    {
        decide(request, false, found)
    }

    /// The error for a failure of the engine in a transaction.
    pub fn failure(request: &Request, reading: bool, stage: Stage, message: String) -> (e:
        StorageError)
        ensures
            e == failure_of(request@, reading, stage, message),
    {
        failure(request, reading, stage, message)
    }

    /// The error for a failure of the engine in a service. There is
    /// nothing to flush and no table to declare.
    pub fn service_failure(service: Service, message: String) -> (e: StorageError)
        ensures
            e == service_failure_of(service, message),
    {
        service_failure(service, message)
    }

    /// The name and version of the engine.
    pub fn details() -> (r: String)
        ensures
            r@ == "SurrealKV 0.3.6"@,
    {
        String::from_str("SurrealKV 0.3.6")
    }
}

} // verus!
