//! The rules of the backend that stands on an LSM-tree engine with column
//! families.
//!
//! A table is a column family; a key is stored as its eight big-endian
//! bytes, so that the engine's byte order is the order of the keys. A
//! batch goes to the engine as one write batch. A delete of a key that is
//! not there is no error.

use vstd::prelude::*;
use vstd::string::StringExecFns;
use crate::backends::script::{
    decide, decision_fits, failure, failure_of, keys_probed, meets_contract, probes_match, removed,
    service_failure, service_failure_of, stored, Decision, Request, Service, Stage, Table,
};
use crate::endian::{be_bytes_u64, put_u64_be};
use crate::errors::StorageError;

verus! {

/// How the engine is tuned when the database is opened.
#[derive(Debug, Clone, Copy, PartialEq, Eq, Structural)]
pub struct Tuning {
    pub create_if_missing: bool,
    pub create_missing_column_families: bool,
    pub compression_threads: i32,
    pub max_background_jobs: i32,
    pub max_open_files: i32,
    pub parallelism: i32,
    pub allow_mmap_writes: bool,
    pub allow_mmap_reads: bool,
}

/// The rules of the LSM-tree backend.
#[derive(Debug, Clone, Copy, PartialEq, Eq, Structural)]
pub struct RocksDBBackend;

impl RocksDBBackend {
    /// The path to open the database at. No path is `InvalidPath`.
    pub fn initialize(store_path: Option<String>) -> (r: Result<String, StorageError>)
        ensures
            r == (match store_path {
                None => Err::<String, StorageError>(StorageError::InvalidPath),
                Some(path) => Ok(path),
            }),
    {
        match store_path {
            None => Err(StorageError::InvalidPath),
            Some(path) => Ok(path),
        }
    }

    /// The tuning the database is opened with: the directory and missing
    /// column families are created, four threads each work in the
    /// background, and files are mapped into memory.
    pub fn tuning() -> (r: Tuning)
        ensures
            r == (Tuning {
                create_if_missing: true,
                create_missing_column_families: true,
                compression_threads: 4,
                max_background_jobs: 4,
                max_open_files: 1000,
                parallelism: 4,
                allow_mmap_writes: true,
                allow_mmap_reads: true,
            }),
    {
        Tuning {
            create_if_missing: true,
            create_missing_column_families: true,
            compression_threads: 4,
            max_background_jobs: 4,
            max_open_files: 1000,
            parallelism: 4,
            allow_mmap_writes: true,
            allow_mmap_reads: true,
        }
    }

    /// The bytes under which `key` is stored: its value, highest byte
    /// first.
    pub fn key_bytes(key: u64) -> (r: Vec<u8>)
        ensures
            r@ == be_bytes_u64(key),
    {
        let mut out: Vec<u8> = Vec::new();
        put_u64_be(&mut out, key);
        assert(out@ =~= be_bytes_u64(key));
        out
    }

    /// Decides `request` on what was found under its keys: as
    /// [`decide`](crate::backends::script::decide), with a delete of a
    /// missing key passed over.
    pub fn decide(request: Request, found: Vec<Option<Vec<u8>>>) -> (r: Decision)
        ensures
            decision_fits(request@, false, found@, r),
            forall|table: Table|
                probes_match(table, keys_probed(request@), found.deep_view()) ==> match r {
                    Decision::Finish(Ok(reply)) => meets_contract(
                        request@,
                        table,
                        Ok(reply@),
                        table,
                    ),
                    Decision::Finish(Err(e)) => meets_contract(request@, table, Err(e), table),
                    Decision::Apply(stores, removals, reply) => meets_contract(
                        request@,
                        table,
                        Ok(reply@),
                        removed(stored(table, stores.deep_view()), removals@),
                    ),
                },
    {
        decide(request, false, found)
    }

    /// The error for a failure of the engine in a read or a write.
    pub fn failure(request: &Request, reading: bool, stage: Stage, message: String) -> (e:
        StorageError)
        ensures
            e == failure_of(request@, reading, stage, message),
    {
        failure(request, reading, stage, message)
    }

    /// The error for a failure of the engine in a service. Closing
    /// flushes the tables and then the write-ahead log.
    pub fn service_failure(service: Service, message: String) -> (e: StorageError)
        ensures
            e == service_failure_of(service, message),
    {
        service_failure(service, message)
    }

    /// The name and version of the engine.
    pub fn details() -> (r: String)
        ensures
            r@ == "RocksDB 0.22.0"@,
    {
        String::from_str("RocksDB 0.22.0")
    }
}

} // verus!
