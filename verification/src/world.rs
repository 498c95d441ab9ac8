//! The world façade: chunks saved, loaded, probed and deleted by their
//! coordinates, over any backend.
//!
//! A chunk is stored in the table `chunks` under the digest of its
//! coordinates, as the compressed bytes of its encoding. An operation that
//! the backend refuses for a conflict is tried again a few times before
//! the conflict is passed on.

use vstd::prelude::*;
use vstd::string::StringExecFns;
use crate::backend::{batch_applied, is_held, DatabaseBackend, Entries};
use crate::chunk_format::{Chunk, ChunkView};
use crate::codec::chunk::{decode, decoding, encode, encoding};
use crate::codec::wire::Wire;
use crate::compressors::{effective_level, packs, unpacked, Compressor, CompressorType};
use crate::config::{
    backend_name, backend_of_name, compressor_name, compressor_of_name, BackendKind,
    DatabaseConfig,
};
use crate::errors::{Damage, StorageError, WorldError};
use crate::hashing::{chunk_digest, hash};
use crate::metadata::{
    check_metadata, format_digest, gate_verdict, world_format, DBMetadata, DBMetadataView, Gate,
    GateView,
};
use crate::text::normal_form;

verus! {

/// The name of the table that holds the chunks.
pub open spec fn chunks_table() -> Seq<char> {
    "chunks"@
}

/// Where the chunk column at `(x, z)` is stored.
pub open spec fn chunk_key(x: i32, z: i32) -> (Seq<char>, u64) {
    (chunks_table(), chunk_digest(x, z))
}

/// The chunk that `record` stands for under the format `kind`, or the step
/// at which reading it back fails.
#[verifier::opaque]
pub open spec fn record_chunk(kind: CompressorType, record: Seq<u8>) -> Result<ChunkView, Damage> {
    match unpacked(kind, record) {
        None => Err(Damage::Compressed),
        Some(plain) => match decoding(plain) {
            None => Err(Damage::Encoded),
            Some(chunk) => Ok(chunk),
        },
    }
}

/// Whether a chunk is stored for the column at `(x, z)`.
pub open spec fn chunk_present(entries: Entries, x: i32, z: i32) -> bool {
    entries.contains_key(chunk_key(x, z))
}

/// What loading the column at `(x, z)` comes to where the backend itself
/// does not fail.
pub open spec fn stored_chunk(entries: Entries, kind: CompressorType, x: i32, z: i32) -> Result<
    ChunkView,
    WorldError,
> {
    if !entries.contains_key(chunk_key(x, z)) {
        Err(WorldError::ChunkNotFound)
    } else {
        match record_chunk(kind, entries[chunk_key(x, z)]) {
            Ok(chunk) => Ok(chunk),
            Err(damage) => Err(WorldError::Corruption(damage)),
        }
    }
}

/// `after` is `before` with `chunk` saved: under the key of its
/// coordinates stands a record of `chunk`, and nothing else has changed.
pub open spec fn chunk_saved(
    before: Entries,
    kind: CompressorType,
    chunk: ChunkView,
    after: Entries,
) -> bool {
    exists|record: Seq<u8>|
        record_chunk(kind, record) == Ok::<ChunkView, Damage>(chunk) && after == before.insert(
            chunk_key(chunk.x, chunk.z),
            #[trigger] is_record(record),
        )
}

/// A record, as it is. (Marks the record in [`chunk_saved`].)
pub open spec fn is_record(record: Seq<u8>) -> Seq<u8> {
    record
}

/// `after` is `before` without the chunk at `(x, z)`.
pub open spec fn chunk_deleted(before: Entries, x: i32, z: i32, after: Entries) -> bool {
    after == before.remove(chunk_key(x, z))
}

/// Whether `records` are records of `chunks`, one for one.
pub open spec fn are_records(
    kind: CompressorType,
    chunks: Seq<ChunkView>,
    records: Seq<Seq<u8>>,
) -> bool {
    records.len() == chunks.len() && forall|i: int|
        0 <= i < chunks.len() ==> record_chunk(kind, #[trigger] records[i]) == Ok::<
            ChunkView,
            Damage,
        >(chunks[i])
}

/// The pairs handed to the backend for `chunks`: the digest of each with
/// its record.
pub open spec fn keyed_records(chunks: Seq<ChunkView>, records: Seq<Seq<u8>>) -> Seq<
    (u64, Seq<u8>),
> {
    Seq::new(chunks.len(), |i: int| (chunk_digest(chunks[i].x, chunks[i].z), records[i]))
}

/// `after` is `before` with all of `chunks` saved, in order: each stands
/// under the key of its coordinates, the later of two for one key
/// staying, and nothing else has changed.
pub open spec fn chunks_saved(
    before: Entries,
    kind: CompressorType,
    chunks: Seq<ChunkView>,
    after: Entries,
) -> bool {
    exists|records: Seq<Seq<u8>>| #[trigger]
        are_records(kind, chunks, records) && after == batch_applied(
            before,
            chunks_table(),
            keyed_records(chunks, records),
        )
}

/// Whether a compressor of format `kind` at `level` packs the encoding of
/// `chunk`: where it does not, the chunk cannot be saved.
pub open spec fn chunk_packs(kind: CompressorType, level: u32, chunk: ChunkView) -> bool {
    packs(kind, level, encoding(chunk))
}

/// Whether a compressor of format `kind` at `level` packs the encoding of
/// every one of `chunks`.
pub open spec fn all_chunks_pack(kind: CompressorType, level: u32, chunks: Seq<ChunkView>) -> bool {
    forall|i: int| 0 <= i < chunks.len() ==> #[trigger] chunk_packs(kind, level, chunks[i])
}

/// Whether `e` is the compressor's failure to pack.
pub open spec fn is_packing_failure(e: WorldError) -> bool {
    e matches WorldError::Storage(inner) && inner is CompressionError
}

/// Whether `e` is a failure of the backend other than that a key is not
/// there.
pub open spec fn is_failed_delete(e: WorldError) -> bool {
    e matches WorldError::Storage(inner) && !(inner is KeyNotFound)
}

/// The metadata record of a database opened under `config`, where both of
/// its names are known.
pub open spec fn current_metadata(config: DatabaseConfig) -> DBMetadataView
    recommends
        backend_of_name(normal_form(config.backend@)) is Some,
        compressor_of_name(normal_form(config.compression@)) is Some,
{
    DBMetadataView {
        compressor: compressor_name(
            compressor_of_name(normal_form(config.compression@)).unwrap(),
        ),
        backend: backend_name(backend_of_name(normal_form(config.backend@)).unwrap()),
        world_format: format_digest(),
    }
}

/// A saved chunk loads: after `chunk` was saved, what is stored for its
/// coordinates is `chunk`, field for field.
pub proof fn lemma_saved_chunk_loads(
    before: Entries,
    kind: CompressorType,
    chunk: ChunkView,
    after: Entries,
)
    requires
        chunk_saved(before, kind, chunk, after),
    ensures
        chunk_present(after, chunk.x, chunk.z),
        stored_chunk(after, kind, chunk.x, chunk.z) == Ok::<ChunkView, WorldError>(chunk),
{
    let record = choose|record: Seq<u8>|
        record_chunk(kind, record) == Ok::<ChunkView, Damage>(chunk) && after == before.insert(
            chunk_key(chunk.x, chunk.z),
            #[trigger] is_record(record),
        );
    assert(after[chunk_key(chunk.x, chunk.z)] == record);
}

/// Saving a chunk leaves every other key as it was.
pub proof fn lemma_save_keeps_others(
    before: Entries,
    kind: CompressorType,
    chunk: ChunkView,
    after: Entries,
    x: i32,
    z: i32,
)
    requires
        chunk_saved(before, kind, chunk, after),
        chunk_key(x, z) != chunk_key(chunk.x, chunk.z),
    ensures
        chunk_present(after, x, z) == chunk_present(before, x, z),
        stored_chunk(after, kind, x, z) == stored_chunk(before, kind, x, z),
{
}

/// Saving the same chunk twice in a row shows nothing that saving it once
/// does not: the same keys are present, and every load gives the same.
pub proof fn lemma_save_twice(
    start: Entries,
    kind: CompressorType,
    chunk: ChunkView,
    once: Entries,
    twice: Entries,
    x: i32,
    z: i32,
)
    requires
        chunk_saved(start, kind, chunk, once),
        chunk_saved(once, kind, chunk, twice),
    ensures
        twice.dom() == once.dom(),
        chunk_present(twice, x, z) == chunk_present(once, x, z),
        stored_chunk(twice, kind, x, z) == stored_chunk(once, kind, x, z),
{
    let key = chunk_key(chunk.x, chunk.z);
    let first = choose|record: Seq<u8>|
        record_chunk(kind, record) == Ok::<ChunkView, Damage>(chunk) && once == start.insert(
            key,
            #[trigger] is_record(record),
        );
    let second = choose|record: Seq<u8>|
        record_chunk(kind, record) == Ok::<ChunkView, Damage>(chunk) && twice == once.insert(
            key,
            #[trigger] is_record(record),
        );
    assert(once[key] == first);
    assert(twice[key] == second);
    assert(twice.dom() =~= once.dom());
}

/// After a chunk was deleted it is absent: probing says so and loading
/// reports `ChunkNotFound`.
pub proof fn lemma_deleted_chunk_absent(
    before: Entries,
    kind: CompressorType,
    x: i32,
    z: i32,
    after: Entries,
)
    requires
        chunk_deleted(before, x, z, after),
    ensures
        !chunk_present(after, x, z),
        stored_chunk(after, kind, x, z) == Err::<ChunkView, WorldError>(
            WorldError::ChunkNotFound,
        ),
{
}

/// Deleting a chunk leaves every other key as it was.
pub proof fn lemma_delete_keeps_others(
    before: Entries,
    kind: CompressorType,
    x: i32,
    z: i32,
    after: Entries,
    other_x: i32,
    other_z: i32,
)
    requires
        chunk_deleted(before, x, z, after),
        chunk_key(other_x, other_z) != chunk_key(x, z),
    ensures
        chunk_present(after, other_x, other_z) == chunk_present(before, other_x, other_z),
        stored_chunk(after, kind, other_x, other_z) == stored_chunk(
            before,
            kind,
            other_x,
            other_z,
        ),
{
}

/// The world: a backend and the one compressor its records go through.
pub struct World<B: DatabaseBackend> {
    storage_backend: B,
    compressor: Compressor,
}

/// The name of the chunk table, as text.
fn chunks_table_name() -> (r: String)
    ensures
        r@ == chunks_table(),
{
    String::from_str("chunks")
}

/// Stores a chunk through `world`, past any cache.
pub(crate) fn save_chunk_internal<B: DatabaseBackend>(world: &mut World<B>, chunk: &Chunk) -> (r:
    Result<(), WorldError>)
    ensures
        final(world).kind() == old(world).kind(),
        final(world).level() == old(world).level(),
        !chunk_packs(old(world).kind(), old(world).level(), chunk@) ==> (r matches Err(e)
            && is_packing_failure(e)),
        match r {
            Ok(()) => chunk_saved(
                old(world).entries(),
                old(world).kind(),
                chunk@,
                final(world).entries(),
            ),
            Err(e) => final(world).entries() == old(world).entries() && e is Storage,
        },
{
    let (digest, as_bytes) = match pack_chunk(&world.compressor, chunk) {
        Ok(pair) => pair,
        Err(e) => {
            return Err(e);
        },
    };
    let ghost record = as_bytes@;
    match upsert_patiently(&mut world.storage_backend, digest, as_bytes) {
        Ok(_) => {
            proof {
                assert(record_chunk(old(world).kind(), record) == Ok::<ChunkView, Damage>(chunk@));
                assert(final(world).entries() == old(world).entries().insert(
                    chunk_key(chunk@.x, chunk@.z),
                    is_record(record),
                ));
            }
            Ok(())
        },
        Err(e) => Err(WorldError::Storage(e)),
    }
}

/// How many times an operation that the backend refuses for a conflict is
/// tried again before the conflict is reported.
pub const RETRY_LIMIT: u32 = 3;

/// A copy of `pairs`.
fn copy_pairs(pairs: &Vec<(u64, Vec<u8>)>) -> (r: Vec<(u64, Vec<u8>)>)
    ensures
        r.deep_view() == pairs.deep_view(),
{
    let mut copy: Vec<(u64, Vec<u8>)> = Vec::new();
    let mut i: usize = 0;
    while i < pairs.len()
        invariant
            i <= pairs.len(),
            copy.len() == i,
            forall|j: int| 0 <= j < i ==> (#[trigger] copy[j]).0 == pairs[j].0 && copy[j].1@ == pairs[j].1@,
        decreases pairs.len() - i,
    {
        let value = pairs[i].1.clone();
        assert(value@ =~= pairs[i as int].1@);
        copy.push((pairs[i].0, value));
        i += 1;
    }
    assert(copy.deep_view() =~= pairs.deep_view()) by {
        assert forall|j: int| 0 <= j < pairs.len() implies copy.deep_view()[j]
            == pairs.deep_view()[j] by {
            assert(copy[j].1.deep_view() =~= copy[j].1@);
            assert(pairs[j].1.deep_view() =~= pairs[j].1@);
        }
    }
    copy
}

/// Stores a record, trying again where the backend reports a conflict.
fn upsert_patiently<B: DatabaseBackend>(backend: &mut B, key: u64, value: Vec<u8>) -> (r: Result<
    bool,
    StorageError,
>)
    ensures
        match r {
            Ok(prior) => prior == old(backend).entries().contains_key((chunks_table(), key))
                && final(backend).entries() == old(backend).entries().insert(
                (chunks_table(), key),
                value@,
            ),
            Err(_) => final(backend).entries() == old(backend).entries(),
        },
{
    let mut tries: u32 = 0;
    loop
        invariant
            tries <= RETRY_LIMIT,
            backend.entries() == old(backend).entries(),
        decreases RETRY_LIMIT - tries,
    {
        let copy = value.clone();
        assert(copy@ =~= value@);
        match backend.upsert(chunks_table_name(), key, copy) {
            Ok(prior) => {
                return Ok(prior);
            },
            Err(e) => {
                if !tries_again(tries, &e) {
                    return Err(e);
                }
                tries += 1;
            },
        }
    }
}

/// Stores a batch of records, trying again where the backend reports a
/// conflict.
fn batch_insert_patiently<B: DatabaseBackend>(backend: &mut B, data: Vec<(u64, Vec<u8>)>) -> (r:
    Result<(), StorageError>)
    ensures
        match r {
            Ok(()) => final(backend).entries() == batch_applied(
                old(backend).entries(),
                chunks_table(),
                data.deep_view(),
            ),
            Err(_) => final(backend).entries() == old(backend).entries(),
        },
{
    let mut tries: u32 = 0;
    loop
        invariant
            tries <= RETRY_LIMIT,
            backend.entries() == old(backend).entries(),
        decreases RETRY_LIMIT - tries,
    {
        match backend.batch_insert(chunks_table_name(), copy_pairs(&data)) {
            Ok(()) => {
                return Ok(());
            },
            Err(e) => {
                if !tries_again(tries, &e) {
                    return Err(e);
                }
                tries += 1;
            },
        }
    }
}

/// Reads a record, trying again where the backend reports a conflict.
fn get_patiently<B: DatabaseBackend>(backend: &B, key: u64) -> (r: Result<
    Option<Vec<u8>>,
    StorageError,
>)
    ensures
        r matches Ok(found) ==> is_held(backend.entries(), chunks_table(), key, found.deep_view()),
{
    let mut tries: u32 = 0;
    loop
        invariant
            tries <= RETRY_LIMIT,
        decreases RETRY_LIMIT - tries,
    {
        match backend.get(chunks_table_name(), key) {
            Ok(found) => {
                return Ok(found);
            },
            Err(e) => {
                if !tries_again(tries, &e) {
                    return Err(e);
                }
                tries += 1;
            },
        }
    }
}

/// Probes for a key, trying again where the backend reports a conflict.
fn key_exists_patiently<B: DatabaseBackend>(backend: &B, key: u64) -> (r: Result<
    bool,
    StorageError,
>)
    ensures
        r matches Ok(found) ==> found == backend.entries().contains_key((chunks_table(), key)),
{
    let mut tries: u32 = 0;
    loop
        invariant
            tries <= RETRY_LIMIT,
        decreases RETRY_LIMIT - tries,
    {
        match backend.key_exists(chunks_table_name(), key) {
            Ok(found) => {
                return Ok(found);
            },
            Err(e) => {
                if !tries_again(tries, &e) {
                    return Err(e);
                }
                tries += 1;
            },
        }
    }
}

/// Removes a key, trying again where the backend reports a conflict. That
/// the key is not there is no error.
fn delete_patiently<B: DatabaseBackend>(backend: &mut B, key: u64) -> (r: Result<
    (),
    StorageError,
>)
    ensures
        match r {
            Ok(()) => final(backend).entries() == old(backend).entries().remove(
                (chunks_table(), key),
            ),
            Err(e) => final(backend).entries() == old(backend).entries() && !(e is KeyNotFound),
        },
{
    let mut tries: u32 = 0;
    loop
        invariant
            tries <= RETRY_LIMIT,
            backend.entries() == old(backend).entries(),
        decreases RETRY_LIMIT - tries,
    {
        match backend.delete(chunks_table_name(), key) {
            Ok(()) => {
                return Ok(());
            },
            Err(StorageError::KeyNotFound(_)) => {
                proof {
                    assert(old(backend).entries().remove((chunks_table(), key)) =~= old(
                        backend,
                    ).entries());
                }
                return Ok(());
            },
            Err(e) => {
                if !tries_again(tries, &e) {
                    return Err(e);
                }
                tries += 1;
            },
        }
    }
}

/// Flushes the backend, trying again where it reports a conflict.
fn flush_patiently<B: DatabaseBackend>(backend: &mut B) -> (r: Result<(), StorageError>)
    ensures
        final(backend).entries() == old(backend).entries(),
        r is Ok ==> final(backend).durable() == final(backend).entries(),
{
    let mut tries: u32 = 0;
    loop
        invariant
            tries <= RETRY_LIMIT,
            backend.entries() == old(backend).entries(),
        decreases RETRY_LIMIT - tries,
    {
        match backend.flush() {
            Ok(()) => {
                return Ok(());
            },
            Err(e) => {
                if !tries_again(tries, &e) {
                    return Err(e);
                }
                tries += 1;
            },
        }
    }
}

/// One more chunk with its record extends the records and the pairs.
pub proof fn lemma_records_push(
    kind: CompressorType,
    chunks: Seq<ChunkView>,
    records: Seq<Seq<u8>>,
    chunk: ChunkView,
    record: Seq<u8>,
)
    requires
        are_records(kind, chunks, records),
        record_chunk(kind, record) == Ok::<ChunkView, Damage>(chunk),
    ensures
        are_records(kind, chunks.push(chunk), records.push(record)),
        keyed_records(chunks.push(chunk), records.push(record)) == keyed_records(
            chunks,
            records,
        ).push((chunk_digest(chunk.x, chunk.z), record)),
{
    let more_chunks = chunks.push(chunk);
    let more_records = records.push(record);
    assert forall|i: int| 0 <= i < more_chunks.len() implies record_chunk(
        kind,
        #[trigger] more_records[i],
    ) == Ok::<ChunkView, Damage>(more_chunks[i]) by {
        if i < chunks.len() {
            assert(more_records[i] == records[i]);
            assert(more_chunks[i] == chunks[i]);
        }
    }
    assert(keyed_records(more_chunks, more_records) =~= keyed_records(chunks, records).push(
        (chunk_digest(chunk.x, chunk.z), record),
    ));
}

/// The digest and the record under which `chunk` is stored.
fn pack_chunk(compressor: &Compressor, chunk: &Chunk) -> (r: Result<(u64, Vec<u8>), WorldError>)
    ensures
        r is Ok <==> chunk_packs(compressor.spec_kind(), compressor.spec_level(), chunk@),
        match r {
            Ok((digest, record)) => digest == chunk_digest(chunk@.x, chunk@.z) && record_chunk(
                compressor.spec_kind(),
                record@,
            ) == Ok::<ChunkView, Damage>(chunk@),
            Err(e) => is_packing_failure(e),
        },
{
    reveal(record_chunk);
    let encoded = encode(chunk);
    match compressor.compress(encoded.as_slice()) {
        Ok(bytes) => Ok((hash(chunk.x, chunk.z), bytes)),
        Err(e) => Err(WorldError::Storage(e)),
    }
}

/// Stores all of `chunks` through `world` in one batch, past any cache.
pub(crate) fn save_chunks_internal<B: DatabaseBackend>(world: &mut World<B>, chunks: &Vec<Chunk>)
    -> (r: Result<(), WorldError>)
    ensures
        final(world).kind() == old(world).kind(),
        final(world).level() == old(world).level(),
        !all_chunks_pack(old(world).kind(), old(world).level(), chunks.deep_view()) ==> (r matches Err(
            e,
        ) && is_packing_failure(e)),
        match r {
            Ok(()) => chunks_saved(
                old(world).entries(),
                old(world).kind(),
                chunks.deep_view(),
                final(world).entries(),
            ),
            Err(e) => final(world).entries() == old(world).entries() && e is Storage,
        },
{
    let ghost model = chunks.deep_view();
    let ghost kind = world.kind();
    let ghost level = world.level();
    let ghost mut records: Seq<Seq<u8>> = Seq::empty();
    let mut data: Vec<(u64, Vec<u8>)> = Vec::new();
    let mut i: usize = 0;
    assert(data.deep_view() =~= keyed_records(model.take(0), records));
    while i < chunks.len()
        invariant
            i <= chunks.len(),
            model == chunks.deep_view(),
            model.len() == chunks.len(),
            world.compressor.spec_kind() == kind,
            world.compressor.spec_level() == level,
            *world == *old(world),
            forall|j: int| 0 <= j < i ==> #[trigger] chunk_packs(kind, level, model[j]),
            are_records(kind, model.take(i as int), records),
            data.deep_view() == keyed_records(model.take(i as int), records),
        decreases chunks.len() - i,
    {
        assert(model[i as int] == chunks[i as int]@);
        let (digest, packed) = match pack_chunk(&world.compressor, &chunks[i]) {
            Ok(pair) => pair,
            Err(e) => {
                assert(!chunk_packs(kind, level, model[i as int]));
                return Err(e);
            },
        };
        let ghost before_data = data.deep_view();
        proof {
            assert(model[i as int] == chunks[i as int]@);
            lemma_records_push(kind, model.take(i as int), records, model[i as int], packed@);
            records = records.push(packed@);
            assert(packed.deep_view() =~= packed@);
            assert(model.take(i + 1) =~= model.take(i as int).push(model[i as int]));
        }
        data.push((digest, packed));
        proof {
            assert(data.deep_view() =~= before_data.push((digest, packed@)));
        }
        i += 1;
    }
    proof {
        assert(model.take(i as int) =~= model);
        assert(all_chunks_pack(kind, level, model));
    }
    match batch_insert_patiently(&mut world.storage_backend, data) {
        Ok(()) => Ok(()),
        Err(e) => Err(WorldError::Storage(e)),
    }
}

/// What a record read from the backend comes to: the chunk it stands for,
/// or the damage found.
pub fn read_record(compressor: &Compressor, record: &[u8]) -> (r: Result<Chunk, WorldError>)
    ensures
        match r {
            Ok(chunk) => record_chunk(compressor.spec_kind(), record@) == Ok::<ChunkView, Damage>(
                chunk@,
            ),
            Err(e) => match record_chunk(compressor.spec_kind(), record@) {
                Ok(_) => false,
                Err(damage) => e == WorldError::Corruption(damage),
            },
        },
{
    reveal(record_chunk);
    match compressor.decompress(record) {
        Err(_) => Err(WorldError::Corruption(Damage::Compressed)),
        Ok(data) => match decode(data.as_slice()) {
            Some(chunk) => Ok(chunk),
            None => Err(WorldError::Corruption(Damage::Encoded)),
        },
    }
}

/// Loads a chunk through `world`, past any cache.
pub(crate) fn load_chunk_internal<B: DatabaseBackend>(
    world: &World<B>,
    compressor: &Compressor,
    x: i32,
    z: i32,
) -> (r: Result<Chunk, WorldError>)
    requires
        compressor.spec_kind() == world.kind(),
    ensures
        match r {
            Ok(chunk) => stored_chunk(world.entries(), world.kind(), x, z) == Ok::<
                ChunkView,
                WorldError,
            >(chunk@),
            Err(e) => e is Storage || stored_chunk(world.entries(), world.kind(), x, z) == Err::<
                ChunkView,
                WorldError,
            >(e),
        },
{
    let digest = hash(x, z);
    match get_patiently(&world.storage_backend, digest) {
        Err(e) => Err(WorldError::Storage(e)),
        Ok(None) => Err(WorldError::ChunkNotFound),
        Ok(Some(compressed)) => {
            proof {
                assert(compressed.deep_view() =~= compressed@);
            }
            read_record(compressor, compressed.as_slice())
        },
    }
}

/// Probes for a chunk through `world`, past any cache.
pub(crate) fn chunk_exists_internal<B: DatabaseBackend>(world: &World<B>, x: i32, z: i32) -> (r:
    Result<bool, WorldError>)
    ensures
        match r {
            Ok(found) => found == chunk_present(world.entries(), x, z),
            Err(e) => e is Storage,
        },
{
    let digest = hash(x, z);
    match key_exists_patiently(&world.storage_backend, digest) {
        Ok(found) => Ok(found),
        Err(e) => Err(WorldError::Storage(e)),
    }
}

/// Deletes a chunk through `world`, past any cache.
pub(crate) fn delete_chunk_internal<B: DatabaseBackend>(world: &mut World<B>, x: i32, z: i32) -> (r:
    Result<(), WorldError>)
    ensures
        final(world).kind() == old(world).kind(),
        final(world).level() == old(world).level(),
        match r {
            Ok(()) => chunk_deleted(old(world).entries(), x, z, final(world).entries()),
            Err(e) => final(world).entries() == old(world).entries() && is_failed_delete(e),
        },
{
    let digest = hash(x, z);
    match delete_patiently(&mut world.storage_backend, digest) {
        Ok(()) => Ok(()),
        Err(e) => Err(WorldError::Storage(e)),
    }
}

/// Flushes the backend of `world`.
pub(crate) fn sync_internal<B: DatabaseBackend>(world: &mut World<B>) -> (r: Result<
    (),
    WorldError,
>)
    ensures
        final(world).kind() == old(world).kind(),
        final(world).level() == old(world).level(),
        final(world).entries() == old(world).entries(),
        r is Ok ==> final(world).durable() == final(world).entries(),
        r matches Err(e) ==> e is Storage,
{
    match flush_patiently(&mut world.storage_backend) {
        Ok(()) => Ok(()),
        Err(e) => Err(WorldError::Storage(e)),
    }
}

impl<B: DatabaseBackend> World<B> {
    /// What the backend holds.
    pub closed spec fn entries(&self) -> Entries {
        self.storage_backend.entries()
    }

    /// The format of the compressor.
    pub closed spec fn kind(&self) -> CompressorType {
        self.compressor.spec_kind()
    }

    /// The level of the compressor.
    pub closed spec fn level(&self) -> u32 {
        self.compressor.spec_level()
    }

    /// Opens a world on `storage_backend` under `config`, past the
    /// metadata check. `stored_meta` is the metadata file of the database
    /// directory, `None` where there is none. On success the second part of
    /// the result is the metadata file to write: `Some` exactly for a new
    /// database, for which the chunk table is declared as well.
    ///
    /// The names of the backend and of the compressor are looked up
    /// trimmed and in lower case. The checks are made in this order:
    /// backend name, compressor name, metadata, chunk table.
    pub fn new(config: &DatabaseConfig, storage_backend: B, stored_meta: Option<&[u8]>) -> (r:
        Result<(Self, Option<Vec<u8>>), WorldError>)
        ensures
            match r {
                Ok((world, to_write)) => {
                    &&& backend_of_name(normal_form(config.backend@)) is Some
                    &&& compressor_of_name(normal_form(config.compression@)) == Some(world.kind())
                    &&& world.level() == effective_level(world.kind(), config.compression_level)
                    &&& world.entries() == storage_backend.entries()
                    &&& gate_verdict(stored_meta.deep_view(), current_metadata(*config)) == Ok::<
                        GateView,
                        WorldError,
                    >(
                        match to_write {
                            Some(bytes) => GateView::Fresh(bytes@),
                            None => GateView::Verified,
                        },
                    )
                },
                Err(e) => if backend_of_name(normal_form(config.backend@)) is None {
                    e == WorldError::InvalidBackend(config.backend)
                } else if compressor_of_name(normal_form(config.compression@)) is None {
                    e == WorldError::InvalidCompressor(config.compression)
                } else {
                    match gate_verdict(stored_meta.deep_view(), current_metadata(*config)) {
                        Err(refusal) => e == refusal,
                        Ok(gate) => gate is Fresh && e is Storage,
                    }
                },
            },
    {
        let backend_kind = match BackendKind::parse(config.backend.as_str()) {
            Some(kind) => kind,
            None => {
                return Err(WorldError::InvalidBackend(config.backend.clone()));
            },
        };
        let compressor_kind = match CompressorType::parse(config.compression.as_str()) {
            Some(kind) => kind,
            None => {
                return Err(WorldError::InvalidCompressor(config.compression.clone()));
            },
        };
        let compressor = Compressor::create(compressor_kind, config.compression_level);
        let metadata = DBMetadata {
            compressor: String::from_str(compressor_kind.name()),
            backend: String::from_str(backend_kind.name()),
            world_format: world_format(),
        };
        assert(metadata@ == current_metadata(*config));
        let mut world = World { storage_backend, compressor };
        match check_metadata(stored_meta, &metadata) {
            Err(e) => Err(e),
            Ok(Gate::Verified) => Ok((world, None)),
            Ok(Gate::Fresh(bytes)) => match world.storage_backend.create_table(
                chunks_table_name(),
            ) {
                Ok(()) => Ok((world, Some(bytes))),
                Err(e) => Err(WorldError::Storage(e)),
            },
        }
    }

    /// A world on `storage_backend` with `compressor`, with no metadata checked:
    /// for a backend that was opened and checked before.
    pub fn from_parts(storage_backend: B, compressor: Compressor) -> (r: Self)
        ensures
            r.entries() == storage_backend.entries(),
            r.kind() == compressor.spec_kind(),
            r.level() == compressor.spec_level(),
    {
        World { storage_backend, compressor }
    }

    /// The backend, the world given up.
    pub fn into_backend(self) -> (r: B)
        ensures
            r.entries() == self.entries(),
    {
        self.storage_backend
    }

    /// Stores a chunk: its encoding, compressed, under the digest of its
    /// coordinates. A chunk already stored there is replaced. A chunk that
    /// the compressor does not pack is not handed to the backend.
    pub fn save_chunk(&mut self, chunk: Chunk) -> (r: Result<(), WorldError>)
        ensures
            final(self).kind() == old(self).kind(),
            final(self).level() == old(self).level(),
            !chunk_packs(old(self).kind(), old(self).level(), chunk@) ==> (r matches Err(e)
                && is_packing_failure(e)),
            match r {
                Ok(()) => chunk_saved(
                    old(self).entries(),
                    old(self).kind(),
                    chunk@,
                    final(self).entries(),
                ),
                Err(e) => final(self).entries() == old(self).entries() && e is Storage,
            },
    {
        save_chunk_internal(self, &chunk)
    }

    /// Stores all of `chunks` in one batch: all of them or none.
    pub fn save_chunks(&mut self, chunks: &Vec<Chunk>) -> (r: Result<(), WorldError>)
        ensures
            final(self).kind() == old(self).kind(),
            final(self).level() == old(self).level(),
            !all_chunks_pack(old(self).kind(), old(self).level(), chunks.deep_view()) ==> (r matches Err(
                e,
            ) && is_packing_failure(e)),
            match r {
                Ok(()) => chunks_saved(
                    old(self).entries(),
                    old(self).kind(),
                    chunks.deep_view(),
                    final(self).entries(),
                ),
                Err(e) => final(self).entries() == old(self).entries() && e is Storage,
            },
    {
        save_chunks_internal(self, chunks)
    }

    /// Loads the chunk stored for `(x, z)`: `ChunkNotFound` where none is
    /// stored, `Corruption` where the record cannot be read back, and
    /// otherwise the chunk, unless the backend itself fails.
    pub fn load_chunk(&self, x: i32, z: i32) -> (r: Result<Chunk, WorldError>)
        ensures
            match r {
                Ok(chunk) => stored_chunk(self.entries(), self.kind(), x, z) == Ok::<
                    ChunkView,
                    WorldError,
                >(chunk@),
                Err(e) => e is Storage || stored_chunk(self.entries(), self.kind(), x, z) == Err::<
                    ChunkView,
                    WorldError,
                >(e),
            },
    {
        load_chunk_internal(self, &self.compressor, x, z)
    }

    /// Whether a chunk is stored for `(x, z)`.
    pub fn chunk_exists(&self, x: i32, z: i32) -> (r: Result<bool, WorldError>)
        ensures
            match r {
                Ok(found) => found == chunk_present(self.entries(), x, z),
                Err(e) => e is Storage,
            },
    {
        chunk_exists_internal(self, x, z)
    }

    /// Deletes the chunk stored for `(x, z)`. That none is stored is no
    /// error, whether or not the backend takes it for one.
    pub fn delete_chunk(&mut self, x: i32, z: i32) -> (r: Result<(), WorldError>)
        ensures
            final(self).kind() == old(self).kind(),
            final(self).level() == old(self).level(),
            match r {
                Ok(()) => chunk_deleted(old(self).entries(), x, z, final(self).entries()),
                Err(e) => final(self).entries() == old(self).entries() && is_failed_delete(e),
            },
    {
        delete_chunk_internal(self, x, z)
    }

    /// Makes every completed write durable: where it succeeds, what is
    /// secured is what the backend holds. A flush that the backend
    /// refuses for a conflict is tried again; any other failure of the
    /// backend is passed on as it is.
    pub fn sync(&mut self) -> (r: Result<(), WorldError>)
        ensures
            final(self).kind() == old(self).kind(),
            final(self).level() == old(self).level(),
            final(self).entries() == old(self).entries(),
            r is Ok ==> final(self).durable() == final(self).entries(),
            r matches Err(e) ==> e is Storage,
    {
        sync_internal(self)
    }

    /// What is secured of what the backend holds: what would be found if
    /// the process stopped now.
    pub closed spec fn durable(&self) -> Entries {
        self.storage_backend.durable()
    }
}

/// Whether an operation that failed with `e` after `tries` tries more than
/// the first is tried once more: where the backend was in conflict, and
/// the limit of tries is not reached.
pub open spec fn is_tried_again(tries: u32, e: StorageError) -> bool {
    e is Conflict && tries < RETRY_LIMIT
}

/// Whether an operation that failed with `e` after `tries` tries more than
/// the first is tried once more.
pub fn tries_again(tries: u32, e: &StorageError) -> (r: bool)
    ensures
        r == is_tried_again(tries, *e),
{
    match e {
        StorageError::Conflict(_) => tries < RETRY_LIMIT,
        _ => false,
    }
}

} // verus!
