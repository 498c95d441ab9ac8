//! The rules that every engine-backed backend follows, apart from the
//! engine.
//!
//! An embedded engine reads keys and applies writes in transactions. What
//! a backend adds is the same over every engine: which keys to look at
//! first, what to make of what was found, which writes to apply, what to
//! answer, and under which error a failure of the engine is reported. Those
//! rules are here, as functions of plain values; the caller runs the
//! engine and hands back what it said.

use vstd::prelude::*;
use vstd::string::StringExecFns;
use crate::errors::StorageError;

verus! {

/// What one table holds.
pub type Table = Map<u64, Seq<u8>>;

/// An operation on one table.
#[derive(Debug, Clone, PartialEq, Eq)]
pub enum Request {
    Insert(u64, Vec<u8>),
    Get(u64),
    Delete(u64),
    Update(u64, Vec<u8>),
    Upsert(u64, Vec<u8>),
    Exists(u64),
    BatchInsert(Vec<(u64, Vec<u8>)>),
    BatchGet(Vec<u64>),
}

/// The model of a [`Request`].
pub enum RequestView {
    Insert(u64, Seq<u8>),
    Get(u64),
    Delete(u64),
    Update(u64, Seq<u8>),
    Upsert(u64, Seq<u8>),
    Exists(u64),
    BatchInsert(Seq<(u64, Seq<u8>)>),
    BatchGet(Seq<u64>),
}

impl DeepView for Request {
    type V = RequestView;

    open spec fn deep_view(&self) -> RequestView {
        match self {
            Request::Insert(key, value) => RequestView::Insert(*key, value@),
            Request::Get(key) => RequestView::Get(*key),
            Request::Delete(key) => RequestView::Delete(*key),
            Request::Update(key, value) => RequestView::Update(*key, value@),
            Request::Upsert(key, value) => RequestView::Upsert(*key, value@),
            Request::Exists(key) => RequestView::Exists(*key),
            Request::BatchInsert(data) => RequestView::BatchInsert(data.deep_view()),
            Request::BatchGet(keys) => RequestView::BatchGet(keys@),
        }
    }
}

impl View for Request {
    type V = RequestView;

    open spec fn view(&self) -> RequestView {
        self.deep_view()
    }
}

/// The answer to a request.
#[derive(Debug, Clone, PartialEq, Eq)]
pub enum Reply {
    /// Done, with nothing to say.
    Done,
    /// Whether the key was there.
    Existed(bool),
    /// What was under the key.
    Value(Option<Vec<u8>>),
    /// What was under each key.
    Values(Vec<Option<Vec<u8>>>),
}

/// The model of a [`Reply`].
pub enum ReplyView {
    Done,
    Existed(bool),
    Value(Option<Seq<u8>>),
    Values(Seq<Option<Seq<u8>>>),
}

impl DeepView for Reply {
    type V = ReplyView;

    open spec fn deep_view(&self) -> ReplyView {
        match self {
            Reply::Done => ReplyView::Done,
            Reply::Existed(found) => ReplyView::Existed(*found),
            Reply::Value(value) => ReplyView::Value(value.deep_view()),
            Reply::Values(values) => ReplyView::Values(values.deep_view()),
        }
    }
}

impl View for Reply {
    type V = ReplyView;

    open spec fn view(&self) -> ReplyView {
        self.deep_view()
    }
}

/// What to do once the keys were looked at.
#[derive(Debug, PartialEq, Eq)]
pub enum Decision {
    /// Nothing is written: this is the result.
    Finish(Result<Reply, StorageError>),
    /// These pairs are stored and then these keys removed, in one
    /// transaction; where that goes through, this is the answer.
    Apply(Vec<(u64, Vec<u8>)>, Vec<u64>, Reply),
}

/// The step of a transaction at which an engine failed.
#[derive(Debug, Clone, Copy, PartialEq, Eq, Structural)]
pub enum Stage {
    /// The transaction could not be started.
    Begin,
    /// The table could not be opened.
    Open,
    /// A read or a write in the transaction failed.
    Apply,
    /// The transaction could not be committed.
    Commit,
    /// The engine found the transaction in conflict with another one.
    Conflict,
}

/// What a backend does for its caller besides reading and writing keys.
#[derive(Debug, Clone, Copy, PartialEq, Eq, Structural)]
pub enum Service {
    /// Creating or opening the database.
    Initialize,
    /// Declaring a table.
    CreateTable,
    /// Making completed writes durable.
    Flush,
    /// Closing the database.
    Close,
}

/// The error under which a failure of the engine is reported for a
/// service.
pub open spec fn service_failure_of(service: Service, message: String) -> StorageError {
    match service {
        Service::Initialize => StorageError::DatabaseInitError(message),
        Service::CreateTable => StorageError::TableError(message),
        Service::Flush => StorageError::FlushError(message),
        Service::Close => StorageError::CloseError(message),
    }
}

/// The keys that a request looks at before anything is written.
pub open spec fn keys_probed(request: RequestView) -> Seq<u64> {
    match request {
        RequestView::Insert(key, _) => seq![key],
        RequestView::Get(key) => seq![key],
        RequestView::Delete(key) => seq![key],
        RequestView::Update(key, _) => seq![key],
        RequestView::Upsert(key, _) => seq![key],
        RequestView::Exists(key) => seq![key],
        RequestView::BatchInsert(_) => Seq::empty(),
        RequestView::BatchGet(keys) => keys,
    }
}

/// Whether `found` is what `table` holds under `keys`, one for one.
pub open spec fn probes_match(table: Table, keys: Seq<u64>, found: Seq<Option<Seq<u8>>>) -> bool {
    found.len() == keys.len() && forall|i: int|
        0 <= i < keys.len() ==> (#[trigger] found[i]) == (if table.contains_key(keys[i]) {
            Some(table[keys[i]])
        } else {
            None
        })
}

/// `table` after the pairs of `stores` were stored in order.
pub open spec fn stored(table: Table, stores: Seq<(u64, Seq<u8>)>) -> Table
    decreases stores.len(),
{
    if stores.len() == 0 {
        table
    } else {
        stored(table, stores.drop_last()).insert(stores.last().0, stores.last().1)
    }
}

/// `table` after the keys of `removals` were removed.
pub open spec fn removed(table: Table, removals: Seq<u64>) -> Table
    decreases removals.len(),
{
    if removals.len() == 0 {
        table
    } else {
        removed(table, removals.drop_last()).remove(removals.last())
    }
}

/// Whether the result `r` and the table `after` are what the backend
/// contract allows for `request` on the table `before`.
pub open spec fn meets_contract(
    request: RequestView,
    before: Table,
    r: Result<ReplyView, StorageError>,
    after: Table,
) -> bool {
    match r {
        Err(e) => after == before && match request {
            RequestView::Insert(key, _) => e is KeyExists ==> e == StorageError::KeyExists(key)
                && before.contains_key(key),
            RequestView::Update(key, _) => e is KeyNotFound ==> e == StorageError::KeyNotFound(
                key,
            ) && !before.contains_key(key),
            RequestView::Delete(key) => e is KeyNotFound ==> e == StorageError::KeyNotFound(key)
                && !before.contains_key(key),
            _ => true,
        },
        Ok(reply) => match request {
            RequestView::Insert(key, value) => reply == ReplyView::Done && !before.contains_key(
                key,
            ) && after == before.insert(key, value),
            RequestView::Get(key) => after == before && reply == ReplyView::Value(
                if before.contains_key(key) {
                    Some(before[key])
                } else {
                    None
                },
            ),
            RequestView::Delete(key) => reply == ReplyView::Done && after == before.remove(key),
            RequestView::Update(key, value) => reply == ReplyView::Done && before.contains_key(
                key,
            ) && after == before.insert(key, value),
            RequestView::Upsert(key, value) => reply == ReplyView::Existed(
                before.contains_key(key),
            ) && after == before.insert(key, value),
            RequestView::Exists(key) => after == before && reply == ReplyView::Existed(
                before.contains_key(key),
            ),
            RequestView::BatchInsert(data) => reply == ReplyView::Done && after == stored(
                before,
                data,
            ),
            RequestView::BatchGet(keys) => after == before && match reply {
                ReplyView::Values(found) => probes_match(before, keys, found),
                _ => false,
            },
        },
    }
}

/// The error under which a failure of the engine is reported: a conflict
/// as `Conflict`; otherwise, while the keys were looked at, `ReadError`; at
/// the commit of an insert, an upsert or a batch, `CommitError`; else
/// `WriteError`.
pub open spec fn failure_of(request: RequestView, reading: bool, stage: Stage, message: String)
    -> StorageError {
    if stage == Stage::Conflict {
        StorageError::Conflict(message)
    } else if reading {
        StorageError::ReadError(message)
    } else if stage == Stage::Commit && (request is Insert || request is Upsert
        || request is BatchInsert) {
        StorageError::CommitError(message)
    } else {
        StorageError::WriteError(message)
    }
}

/// Whether `r` is the kind of decision that `request` calls for on what
/// was `found`: a read error where the answers are not one for each key;
/// else for an insert, an update and a strict delete the error that the
/// key calls for, or writes; for an upsert and a batch always writes; for
/// a read always an answer.
pub open spec fn decision_fits(
    request: RequestView,
    strict_delete: bool,
    found: Seq<Option<Vec<u8>>>,
    r: Decision,
) -> bool {
    if found.len() != keys_probed(request).len() {
        match r {
            Decision::Finish(Err(e)) => e is ReadError,
            _ => false,
        }
    } else {
        match request {
            RequestView::Insert(key, _) => if found[0] is Some {
                r == Decision::Finish(Err(StorageError::KeyExists(key)))
            } else {
                r is Apply
            },
            RequestView::Update(key, _) => if found[0] is None {
                r == Decision::Finish(Err(StorageError::KeyNotFound(key)))
            } else {
                r is Apply
            },
            RequestView::Delete(key) => if strict_delete && found[0] is None {
                r == Decision::Finish(Err(StorageError::KeyNotFound(key)))
            } else {
                r is Apply
            },
            RequestView::Upsert(_, _) => r is Apply,
            RequestView::BatchInsert(_) => r is Apply,
            _ => match r {
                Decision::Finish(Ok(_)) => true,
                _ => false,
            },
        }
    }
}

/// The keys to look at before `request` is decided.
pub fn probe_keys(request: &Request) -> (keys: Vec<u64>)
    ensures
        keys@ == keys_probed(request@),
{
    let mut keys: Vec<u64> = Vec::new();
    match request {
        Request::Insert(key, _) => {
            keys.push(*key);
        },
        Request::Get(key) => {
            keys.push(*key);
        },
        Request::Delete(key) => {
            keys.push(*key);
        },
        Request::Update(key, _) => {
            keys.push(*key);
        },
        Request::Upsert(key, _) => {
            keys.push(*key);
        },
        Request::Exists(key) => {
            keys.push(*key);
        },
        Request::BatchInsert(_) => {},
        Request::BatchGet(wanted) => {
            let mut i: usize = 0;
            while i < wanted.len()
                invariant
                    i <= wanted.len(),
                    keys@ == wanted@.take(i as int),
                decreases wanted.len() - i,
            {
                keys.push(wanted[i]);
                assert(keys@ =~= wanted@.take(i + 1));
                i += 1;
            }
            assert(wanted@.take(i as int) =~= wanted@);
            return keys;
        },
    }
    assert(keys@ =~= keys_probed(request@));
    keys
}

/// One pair to store.
fn one_store(key: u64, value: Vec<u8>) -> (stores: Vec<(u64, Vec<u8>)>)
    ensures
        stores.deep_view() == seq![(key, value@)],
{
    let mut stores: Vec<(u64, Vec<u8>)> = Vec::new();
    stores.push((key, value));
    assert(stores.deep_view() =~= seq![(key, value@)]) by {
        assert(stores[0].1.deep_view() =~= value@);
    }
    stores
}

/// Storing one pair is one insertion.
proof fn lemma_one_stored(table: Table, key: u64, value: Seq<u8>)
    ensures
        stored(table, seq![(key, value)]) == table.insert(key, value),
        removed(table, Seq::empty()) == table,
        removed(table, seq![key]) == table.remove(key),
        stored(table, Seq::empty()) == table,
{
    let one = seq![(key, value)];
    assert(one.drop_last() =~= Seq::<(u64, Seq<u8>)>::empty());
    assert(stored(table, one.drop_last()) == table);
    let gone = seq![key];
    assert(gone.drop_last() =~= Seq::<u64>::empty());
    assert(removed(table, gone.drop_last()) == table);
}

/// Decides `request` on what was found under its keys. `strict_delete`
/// says whether deleting a key that is not there is reported as
/// `KeyNotFound`. Where `found` is not one answer for each key, the
/// request fails with `ReadError`.
///
/// Whatever table the keys were read from: what is decided keeps the
/// backend contract on that table. A result given at once leaves the table
/// as it is; writes, once applied, leave it as the answer says.
pub fn decide(request: Request, strict_delete: bool, found: Vec<Option<Vec<u8>>>) -> (r: Decision)
    ensures
        decision_fits(request@, strict_delete, found@, r),
        forall|table: Table|
            probes_match(table, keys_probed(request@), found.deep_view()) ==> match r {
                Decision::Finish(Ok(reply)) => meets_contract(request@, table, Ok(reply@), table),
                Decision::Finish(Err(e)) => meets_contract(request@, table, Err(e), table),
                Decision::Apply(stores, removals, reply) => meets_contract(
                    request@,
                    table,
                    Ok(reply@),
                    removed(stored(table, stores.deep_view()), removals@),
                ),
            },
{
    let ghost model = request@;
    let ghost answers = found.deep_view();
    if found.len() != probe_keys(&request).len() {
        return Decision::Finish(
            Err(StorageError::ReadError(String::from_str("keys and answers differ in number"))),
        );
    }
    match request {
        Request::Insert(key, value) => {
            if found[0].is_some() {
                Decision::Finish(Err(StorageError::KeyExists(key)))
            } else {
                proof {
                    assert(answers[0] is None);
                    assert forall|table: Table|
                        probes_match(table, keys_probed(model), answers) implies !table.contains_key(
                        key,
                    ) && removed(stored(table, seq![(key, value@)]), Seq::empty())
                        == table.insert(key, value@) by {
                        assert(table.contains_key(seq![key][0]) ==> answers[0] is Some);
                        lemma_one_stored(table, key, value@);
                        lemma_one_stored(table.insert(key, value@), key, value@);
                    }
                }
                Decision::Apply(one_store(key, value), Vec::new(), Reply::Done)
            }
        },
        Request::Get(key) => {
            let mut found = found;
            let value = found.remove(0);
            proof {
                assert(value.deep_view() == answers[0]);
            }
            Decision::Finish(Ok(Reply::Value(value)))
        },
        Request::Delete(key) => {
            if strict_delete && found[0].is_none() {
                proof {
                    assert(answers[0] is None);
                    assert forall|table: Table|
                        probes_match(
                            table,
                            keys_probed(model),
                            answers,
                        ) implies !table.contains_key(key) by {
                        assert(table.contains_key(seq![key][0]) ==> answers[0] is Some);
                    }
                }
                Decision::Finish(Err(StorageError::KeyNotFound(key)))
            } else {
                let mut removals: Vec<u64> = Vec::new();
                removals.push(key);
                proof {
                    assert(removals@ =~= seq![key]);
                    assert forall|table: Table| #[trigger]
                        removed(stored(table, Seq::empty()), seq![key]) == table.remove(key) by {
                        lemma_one_stored(table, key, Seq::empty());
                    }
                }
                let stores: Vec<(u64, Vec<u8>)> = Vec::new();
                assert(stores.deep_view() =~= Seq::<(u64, Seq<u8>)>::empty());
                Decision::Apply(stores, removals, Reply::Done)
            }
        },
        Request::Update(key, value) => {
            if found[0].is_none() {
                proof {
                    assert(answers[0] is None);
                    assert forall|table: Table|
                        probes_match(
                            table,
                            keys_probed(model),
                            answers,
                        ) implies !table.contains_key(key) by {
                        assert(table.contains_key(seq![key][0]) ==> answers[0] is Some);
                    }
                }
                Decision::Finish(Err(StorageError::KeyNotFound(key)))
            } else {
                proof {
                    assert(answers[0] is Some);
                    assert forall|table: Table|
                        probes_match(table, keys_probed(model), answers) implies table.contains_key(
                        key,
                    ) && removed(stored(table, seq![(key, value@)]), Seq::empty())
                        == table.insert(key, value@) by {
                        assert(!table.contains_key(seq![key][0]) ==> answers[0] is None);
                        lemma_one_stored(table, key, value@);
                        lemma_one_stored(table.insert(key, value@), key, value@);
                    }
                }
                Decision::Apply(one_store(key, value), Vec::new(), Reply::Done)
            }
        },
        Request::Upsert(key, value) => {
            let prior = found[0].is_some();
            proof {
                assert(prior == answers[0] is Some);
                assert forall|table: Table|
                    probes_match(table, keys_probed(model), answers) implies prior
                        == table.contains_key(key) && removed(
                        stored(table, seq![(key, value@)]),
                        Seq::empty(),
                    ) == table.insert(key, value@) by {
                    assert(table.contains_key(seq![key][0]) <==> answers[0] is Some);
                    lemma_one_stored(table, key, value@);
                    lemma_one_stored(table.insert(key, value@), key, value@);
                }
            }
            Decision::Apply(one_store(key, value), Vec::new(), Reply::Existed(prior))
        },
        Request::Exists(key) => {
            let prior = found[0].is_some();
            proof {
                assert(prior == answers[0] is Some);
                assert forall|table: Table|
                    probes_match(table, keys_probed(model), answers) implies prior
                        == table.contains_key(key) by {
                    assert(table.contains_key(seq![key][0]) <==> answers[0] is Some);
                }
            }
            Decision::Finish(Ok(Reply::Existed(prior)))
        },
        Request::BatchInsert(data) => {
            proof {
                assert forall|table: Table| #[trigger]
                    removed(stored(table, data.deep_view()), Seq::empty()) == stored(
                        table,
                        data.deep_view(),
                    ) by {
                    lemma_one_stored(stored(table, data.deep_view()), 0, Seq::empty());
                }
            }
            Decision::Apply(data, Vec::new(), Reply::Done)
        },
        Request::BatchGet(keys) => Decision::Finish(Ok(Reply::Values(found))),
    }
}

/// The error under which a failure of the engine is reported for
/// `request`: `reading` says whether it failed while the keys were looked
/// at, `stage` at which step of the transaction.
pub fn failure(request: &Request, reading: bool, stage: Stage, message: String) -> (e:
    StorageError)
    ensures
        e == failure_of(request@, reading, stage, message),
        !(e is KeyExists) && !(e is KeyNotFound),
{
    match stage {
        Stage::Conflict => {
            return StorageError::Conflict(message);
        },
        _ => {},
    }
    if reading {
        return StorageError::ReadError(message);
    }
    let commits = match request {
        Request::Insert(_, _) => true,
        Request::Upsert(_, _) => true,
        Request::BatchInsert(_) => true,
        _ => false,
    };
    match stage {
        Stage::Commit => if commits {
            StorageError::CommitError(message)
        } else {
            StorageError::WriteError(message)
        },
        _ => StorageError::WriteError(message),
    }
}

/// The error under which a failure of the engine is reported for
/// `service`.
pub fn service_failure(service: Service, message: String) -> (e: StorageError)
    ensures
        e == service_failure_of(service, message),
{
    match service {
        Service::Initialize => StorageError::DatabaseInitError(message),
        Service::CreateTable => StorageError::TableError(message),
        Service::Flush => StorageError::FlushError(message),
        Service::Close => StorageError::CloseError(message),
    }
}

/// A failure of the engine keeps the backend contract: the table is as it
/// was, and the error is none of those that say something of the key.
pub proof fn lemma_failure_meets_contract(
    request: RequestView,
    reading: bool,
    stage: Stage,
    message: String,
    table: Table,
)
    ensures
        meets_contract(
            request,
            table,
            Err(failure_of(request, reading, stage, message)),
            table,
        ),
{
}

} // verus!
