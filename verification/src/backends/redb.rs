//! The rules of the backend that stands on a B-tree engine with typed
//! tables.
//!
//! The engine keeps one file. Every operation runs in a transaction of its
//! own: begin, open the table, read or write, commit. A delete of a key
//! that is not there is reported.

use vstd::prelude::*;
use vstd::string::StringExecFns;
use crate::backends::script::{
    decide, decision_fits, failure, failure_of, keys_probed, meets_contract, probes_match, removed,
    service_failure, service_failure_of, stored, Decision, Request, RequestView, Service,
    Stage, Table,
};
use crate::errors::StorageError;

verus! {

/// How the database file is to be brought up.
#[derive(Debug, Clone, PartialEq, Eq)]
pub enum Opening {
    /// The file is there: open it.
    Open(String),
    /// The file is not there: create it.
    Create(String),
}

/// The rules of the B-tree backend.
#[derive(Debug, Clone, Copy, PartialEq, Eq, Structural)]
pub struct RedbBackend;

impl RedbBackend {
    /// How to bring up the database at `store_path`, given whether a file
    /// is there: existing data is opened, never created over. No path is
    /// `InvalidPath`.
    pub fn initialize(store_path: Option<String>, file_exists: bool) -> (r: Result<
        Opening,
        StorageError,
    >)
        ensures
            r == (match store_path {
                None => Err::<Opening, StorageError>(StorageError::InvalidPath),
                Some(path) => if file_exists {
                    Ok(Opening::Open(path))
                } else {
                    Ok(Opening::Create(path))
                },
            }),
    {
        match store_path {
            None => Err(StorageError::InvalidPath),
            Some(path) => if file_exists {
                Ok(Opening::Open(path))
            } else {
                Ok(Opening::Create(path))
            },
        }
    }

    /// Decides `request` on what was found under its keys: as
    /// [`decide`](crate::backends::script::decide), with a delete of a
    /// missing key reported.
    pub fn decide(request: Request, found: Vec<Option<Vec<u8>>>) -> (r: Decision)
        ensures
            decision_fits(request@, true, found@, r),
            forall|table: Table|
                probes_match(table, keys_probed(request@), found.deep_view()) ==> match r {
                    Decision::Finish(Ok(reply)) => meets_contract(
                        request@,
                        table,
                        Ok(reply@),
                        table,
                    ),
                    Decision::Finish(Err(e)) => meets_contract(request@, table, Err(e), table),
                    Decision::Apply(stores, removals, reply) => meets_contract(
                        request@,
                        table,
                        Ok(reply@),
                        removed(stored(table, stores.deep_view()), removals@),
                    ),
                },
    {
        decide(request, true, found)
    }

    /// The error for a failure of the engine in a transaction.
    pub fn failure(request: &Request, reading: bool, stage: Stage, message: String) -> (e:
        StorageError)
        ensures
            e == failure_of(request@, reading, stage, message),
    {
        failure(request, reading, stage, message)
    }

    /// The error for a failure of the engine in a service. Making writes
    /// durable compacts the file; closing does nothing and cannot fail.
    pub fn service_failure(service: Service, message: String) -> (e: StorageError)
        ensures
            e == service_failure_of(service, message),
    {
        service_failure(service, message)
    }

    /// The name and version of the engine.
    pub fn details() -> (r: String)
        ensures
            r@ == "Redb 2.1.3"@,
    {
        String::from_str("Redb 2.1.3")
    }
}

} // verus!
