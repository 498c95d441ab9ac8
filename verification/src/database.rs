//! The chunk cache: a map of decoded chunks in front of the world.
//!
//! Reads go through the cache and fill it; writes go to the backend first
//! and to the cache after. The cache is keyed by the digests the backend
//! is keyed by, and what it holds for a digest is always what the backend
//! holds for it, decoded.

use std::collections::HashMap;
use vstd::prelude::*;
use crate::backend::{batch_applied, DatabaseBackend, Entries};
use crate::chunk_format::{Chunk, ChunkView};
use crate::compressors::CompressorType;
use crate::errors::{Damage, WorldError};
use crate::hashing::{chunk_digest, hash};
use crate::world::{
    all_chunks_pack, are_records, chunk_deleted, chunk_key, chunk_packs, chunk_present,
    chunk_saved, chunks_saved, chunks_table, is_failed_delete, is_packing_failure, is_record,
    keyed_records, record_chunk, stored_chunk, World,
};

verus! {

/// Whether everything in `cached` is what `entries` hold for its digest,
/// decoded under `kind`.
pub open spec fn coherent(entries: Entries, kind: CompressorType, cached: Map<u64, ChunkView>)
    -> bool {
    forall|digest: u64| #[trigger]
        cached.contains_key(digest) ==> entries.contains_key((chunks_table(), digest))
            && record_chunk(kind, entries[(chunks_table(), digest)]) == Ok::<ChunkView, Damage>(
            cached[digest],
        )
}

/// Whether everything in `part` is in `whole`, with the same chunk.
pub open spec fn part_of(part: Map<u64, ChunkView>, whole: Map<u64, ChunkView>) -> bool {
    forall|digest: u64| #[trigger]
        part.contains_key(digest) ==> whole.contains_key(digest) && part[digest] == whole[digest]
}

/// Whether `cached` holds something under every one of `digests`.
pub open spec fn all_cached(cached: Map<u64, ChunkView>, digests: Seq<u64>) -> bool {
    forall|i: int| 0 <= i < digests.len() ==> cached.contains_key(#[trigger] digests[i])
}

/// Whether `cached` holds something under the last of `digests`, where
/// there is one.
pub open spec fn last_cached(cached: Map<u64, ChunkView>, digests: Seq<u64>) -> bool {
    digests.len() > 0 ==> cached.contains_key(digests.last())
}

/// Whether `cached` holds nothing under any of `digests`.
pub open spec fn none_cached(cached: Map<u64, ChunkView>, digests: Seq<u64>) -> bool {
    forall|i: int| 0 <= i < digests.len() ==> !cached.contains_key(#[trigger] digests[i])
}

/// The digests of `chunks`, in order.
pub open spec fn digests_of(chunks: Seq<ChunkView>) -> Seq<u64> {
    Seq::new(chunks.len(), |i: int| chunk_digest(chunks[i].x, chunks[i].z))
}

/// The index of the last of `digests` that is `digest`, or -1 where none
/// is.
pub open spec fn last_index(digests: Seq<u64>, digest: u64) -> int
    decreases digests.len(),
{
    if digests.len() == 0 {
        -1
    } else if digests.last() == digest {
        digests.len() - 1
    } else {
        last_index(digests.drop_last(), digest)
    }
}

/// `last_index` is an index of `digest`, and no later one is.
pub proof fn lemma_last_index(digests: Seq<u64>, digest: u64)
    ensures
        -1 <= last_index(digests, digest) < digests.len(),
        last_index(digests, digest) >= 0 ==> digests[last_index(digests, digest)] == digest,
        forall|i: int|
            last_index(digests, digest) < i < digests.len() ==> #[trigger] digests[i] != digest,
    decreases digests.len(),
{
    if digests.len() > 0 && digests.last() != digest {
        lemma_last_index(digests.drop_last(), digest);
        assert forall|i: int| last_index(digests, digest) < i < digests.len() implies #[trigger] digests[i]
            != digest by {
            if i < digests.len() - 1 {
                assert(digests.drop_last()[i] == digests[i]);
            }
        }
    }
}

/// What a batch leaves under a key: the record of the last chunk with that
/// digest, or what was there where the batch has none.
pub proof fn lemma_batch_applied(
    entries: Entries,
    chunks: Seq<ChunkView>,
    records: Seq<Seq<u8>>,
    digest: u64,
)
    requires
        records.len() == chunks.len(),
    ensures
        ({
            let after = batch_applied(entries, chunks_table(), keyed_records(chunks, records));
            let last = last_index(digests_of(chunks), digest);
            let key = (chunks_table(), digest);
            if last >= 0 {
                after.contains_key(key) && after[key] == records[last]
            } else {
                after.contains_key(key) == entries.contains_key(key) && (after.contains_key(key)
                    ==> after[key] == entries[key])
            }
        }),
    decreases chunks.len(),
{
    let table = chunks_table();
    let data = keyed_records(chunks, records);
    let ds = digests_of(chunks);
    if chunks.len() == 0 {
        assert(data.len() == 0);
    } else {
        let fewer = chunks.drop_last();
        let fewer_records = records.drop_last();
        lemma_batch_applied(entries, fewer, fewer_records, digest);
        lemma_last_index(digests_of(fewer), digest);
        assert(data.len() == chunks.len());
        assert(data.drop_last() =~= keyed_records(fewer, fewer_records));
        assert(ds.drop_last() =~= digests_of(fewer));
        assert(data.last() == (ds.last(), records.last()));
        let prev = batch_applied(entries, table, data.drop_last());
        assert(batch_applied(entries, table, data) == prev.insert(
            (table, ds.last()),
            records.last(),
        ));
        if ds.last() == digest {
            assert(last_index(ds, digest) == ds.len() - 1);
        } else {
            let last = last_index(ds, digest);
            assert(last == last_index(digests_of(fewer), digest));
            if last >= 0 {
                assert(records[last] == fewer_records[last]);
            }
        }
    }
}

/// A save keeps a coherent cache coherent once the saved chunk is put in
/// it, and any part of that cache too.
pub proof fn lemma_save_keeps_coherent(
    before: Entries,
    kind: CompressorType,
    chunk: ChunkView,
    after: Entries,
    cached: Map<u64, ChunkView>,
    kept: Map<u64, ChunkView>,
)
    requires
        coherent(before, kind, cached),
        chunk_saved(before, kind, chunk, after),
        part_of(kept, cached.insert(chunk_digest(chunk.x, chunk.z), chunk)),
    ensures
        coherent(after, kind, kept),
{
    let key = chunk_key(chunk.x, chunk.z);
    let record = choose|record: Seq<u8>|
        record_chunk(kind, record) == Ok::<ChunkView, Damage>(chunk) && after == before.insert(
            key,
            #[trigger] is_record(record),
        );
    assert forall|digest: u64| #[trigger] kept.contains_key(digest) implies after.contains_key(
        (chunks_table(), digest),
    ) && record_chunk(kind, after[(chunks_table(), digest)]) == Ok::<ChunkView, Damage>(
        kept[digest],
    ) by {
        if digest != chunk_digest(chunk.x, chunk.z) {
            assert(cached.contains_key(digest));
        }
    }
}

/// A part of a coherent cache is coherent.
pub proof fn lemma_part_coherent(
    entries: Entries,
    kind: CompressorType,
    cached: Map<u64, ChunkView>,
    kept: Map<u64, ChunkView>,
)
    requires
        coherent(entries, kind, cached),
        part_of(kept, cached),
    ensures
        coherent(entries, kind, kept),
{
    assert forall|digest: u64| #[trigger] kept.contains_key(digest) implies entries.contains_key(
        (chunks_table(), digest),
    ) && record_chunk(kind, entries[(chunks_table(), digest)]) == Ok::<ChunkView, Damage>(
        kept[digest],
    ) by {
        assert(cached.contains_key(digest));
    }
}

/// Whether `cache` is what `start` became while `chunks` were put in it
/// one by one, chunks forgotten on the way aside: under the digest of a
/// chunk of `chunks` it holds the last such chunk, under any other digest
/// what `start` held.
pub open spec fn warmed(
    start: Map<u64, ChunkView>,
    chunks: Seq<ChunkView>,
    cache: Map<u64, ChunkView>,
) -> bool {
    forall|digest: u64| #[trigger]
        cache.contains_key(digest) ==> {
            let last = last_index(digests_of(chunks), digest);
            if last >= 0 {
                cache[digest] == chunks[last]
            } else {
                start.contains_key(digest) && cache[digest] == start[digest]
            }
        }
}

/// Putting one more chunk in a warmed cache leaves it warmed.
pub proof fn lemma_warmed_push(
    start: Map<u64, ChunkView>,
    chunks: Seq<ChunkView>,
    cache: Map<u64, ChunkView>,
    chunk: ChunkView,
    next: Map<u64, ChunkView>,
)
    requires
        warmed(start, chunks, cache),
        part_of(next, cache.insert(chunk_digest(chunk.x, chunk.z), chunk)),
    ensures
        warmed(start, chunks.push(chunk), next),
{
    let more = chunks.push(chunk);
    let ds = digests_of(more);
    assert(ds.drop_last() =~= digests_of(chunks));
    assert(ds.last() == chunk_digest(chunk.x, chunk.z));
    assert forall|digest: u64| #[trigger] next.contains_key(digest) implies ({
        let last = last_index(ds, digest);
        if last >= 0 {
            next[digest] == more[last]
        } else {
            start.contains_key(digest) && next[digest] == start[digest]
        }
    }) by {
        if digest == chunk_digest(chunk.x, chunk.z) {
            assert(last_index(ds, digest) == ds.len() - 1);
        } else {
            assert(cache.contains_key(digest));
            let last = last_index(digests_of(chunks), digest);
            assert(last_index(ds, digest) == last);
            lemma_last_index(digests_of(chunks), digest);
            if last >= 0 {
                assert(more[last] == chunks[last]);
            }
        }
    }
}

/// A cache warmed with a batch is coherent with the backend once the batch
/// is saved.
pub proof fn lemma_warmed_coherent(
    before: Entries,
    kind: CompressorType,
    start: Map<u64, ChunkView>,
    chunks: Seq<ChunkView>,
    cache: Map<u64, ChunkView>,
    after: Entries,
)
    requires
        coherent(before, kind, start),
        warmed(start, chunks, cache),
        chunks_saved(before, kind, chunks, after),
    ensures
        coherent(after, kind, cache),
{
    let records = choose|records: Seq<Seq<u8>>| #[trigger]
        are_records(kind, chunks, records) && after == batch_applied(
            before,
            chunks_table(),
            keyed_records(chunks, records),
        );
    assert forall|digest: u64| #[trigger] cache.contains_key(digest) implies after.contains_key(
        (chunks_table(), digest),
    ) && record_chunk(kind, after[(chunks_table(), digest)]) == Ok::<ChunkView, Damage>(
        cache[digest],
    ) by {
        lemma_batch_applied(before, chunks, records, digest);
        lemma_last_index(digests_of(chunks), digest);
        let last = last_index(digests_of(chunks), digest);
        if last < 0 {
            assert(start.contains_key(digest));
        }
    }
}

/// What is left of a warmed cache once every chunk of the batch is taken
/// out again is a part of the cache before the batch.
pub proof fn lemma_cooled(
    start: Map<u64, ChunkView>,
    chunks: Seq<ChunkView>,
    cache: Map<u64, ChunkView>,
    left: Map<u64, ChunkView>,
)
    requires
        warmed(start, chunks, cache),
        part_of(left, cache),
        forall|i: int| 0 <= i < chunks.len() ==> !left.contains_key(#[trigger] digests_of(chunks)[i]),
    ensures
        part_of(left, start),
{
    assert forall|digest: u64| #[trigger] left.contains_key(digest) implies start.contains_key(
        digest,
    ) && left[digest] == start[digest] by {
        assert(cache.contains_key(digest));
        lemma_last_index(digests_of(chunks), digest);
        let last = last_index(digests_of(chunks), digest);
        if last >= 0 {
            assert(!left.contains_key(digests_of(chunks)[last]));
        }
    }
}

/// A coherent cache answers as the backend would: what it holds for the
/// digest of `(x, z)` is the chunk that loading `(x, z)` from the backend
/// comes to.
pub proof fn lemma_cache_agrees(
    entries: Entries,
    kind: CompressorType,
    cached: Map<u64, ChunkView>,
    x: i32,
    z: i32,
)
    requires
        coherent(entries, kind, cached),
        cached.contains_key(chunk_digest(x, z)),
    ensures
        chunk_present(entries, x, z),
        stored_chunk(entries, kind, x, z) == Ok::<ChunkView, WorldError>(
            cached[chunk_digest(x, z)],
        ),
{
}

/// After a save, loading gives the saved chunk whether or not the cache
/// holds it: from a cache that took the chunk in, and from the backend.
pub proof fn lemma_saved_chunk_loads_warm_or_cold(
    before: Entries,
    kind: CompressorType,
    chunk: ChunkView,
    after: Entries,
    cached: Map<u64, ChunkView>,
    kept: Map<u64, ChunkView>,
)
    requires
        coherent(before, kind, cached),
        chunk_saved(before, kind, chunk, after),
        part_of(kept, cached.insert(chunk_digest(chunk.x, chunk.z), chunk)),
    ensures
        stored_chunk(after, kind, chunk.x, chunk.z) == Ok::<ChunkView, WorldError>(chunk),
        kept.contains_key(chunk_digest(chunk.x, chunk.z)) ==> kept[chunk_digest(
            chunk.x,
            chunk.z,
        )] == chunk,
{
    crate::world::lemma_saved_chunk_loads(before, kind, chunk, after);
}

/// After a batch was saved, the chunk that loads for the coordinates of any
/// chunk of the batch is the last chunk of the batch with that digest.
pub proof fn lemma_batch_saved_chunk_loads(
    before: Entries,
    kind: CompressorType,
    chunks: Seq<ChunkView>,
    after: Entries,
    i: int,
)
    requires
        chunks_saved(before, kind, chunks, after),
        0 <= i < chunks.len(),
    ensures
        chunk_present(after, chunks[i].x, chunks[i].z),
        ({
            let last = last_index(digests_of(chunks), chunk_digest(chunks[i].x, chunks[i].z));
            i <= last < chunks.len() && stored_chunk(after, kind, chunks[i].x, chunks[i].z) == Ok::<
                ChunkView,
                WorldError,
            >(chunks[last])
        }),
{
    let records = choose|records: Seq<Seq<u8>>| #[trigger]
        are_records(kind, chunks, records) && after == batch_applied(
            before,
            chunks_table(),
            keyed_records(chunks, records),
        );
    let digest = chunk_digest(chunks[i].x, chunks[i].z);
    lemma_batch_applied(before, chunks, records, digest);
    lemma_last_index(digests_of(chunks), digest);
    assert(digests_of(chunks)[i] == digest);
}

/// A failed batch is all or nothing: where the chunks of the batch were
/// all absent before, or all present, they are so after, since a failed
/// batch changes nothing that a probe can see.
pub proof fn lemma_failed_batch_all_or_none(
    before: Entries,
    after: Entries,
    cached_after: Map<u64, ChunkView>,
    kind: CompressorType,
    chunks: Seq<ChunkView>,
)
    requires
        after == before,
        coherent(after, kind, cached_after),
        forall|i: int, j: int|
            0 <= i < chunks.len() && 0 <= j < chunks.len() ==> chunk_present(
                before,
                chunks[i].x,
                chunks[i].z,
            ) == chunk_present(before, chunks[j].x, chunks[j].z),
    ensures
        (forall|i: int|
            0 <= i < chunks.len() ==> cached_after.contains_key(
                chunk_digest(chunks[i].x, chunks[i].z),
            ) || chunk_present(after, #[trigger] chunks[i].x, chunks[i].z)) || (forall|i: int|
            0 <= i < chunks.len() ==> !(cached_after.contains_key(
                chunk_digest(chunks[i].x, chunks[i].z),
            ) || chunk_present(after, #[trigger] chunks[i].x, chunks[i].z))),
{
    if chunks.len() > 0 {
        if chunk_present(before, chunks[0].x, chunks[0].z) {
            assert forall|i: int| 0 <= i < chunks.len() implies cached_after.contains_key(
                chunk_digest(chunks[i].x, chunks[i].z),
            ) || chunk_present(after, #[trigger] chunks[i].x, chunks[i].z) by {
                assert(chunk_present(before, chunks[i].x, chunks[i].z) == chunk_present(
                    before,
                    chunks[0].x,
                    chunks[0].z,
                ));
            }
        } else {
            assert forall|i: int| 0 <= i < chunks.len() implies !(cached_after.contains_key(
                chunk_digest(chunks[i].x, chunks[i].z),
            ) || chunk_present(after, #[trigger] chunks[i].x, chunks[i].z)) by {
                assert(chunk_present(before, chunks[i].x, chunks[i].z) == chunk_present(
                    before,
                    chunks[0].x,
                    chunks[0].z,
                ));
            }
        }
    }
}

/// The chunk cache over a world.
pub struct Database<B: DatabaseBackend> {
    world: World<B>,
    cache: HashMap<u64, Chunk>,
    limit: Option<usize>,
}

impl<B: DatabaseBackend> Database<B> {
    /// What the backend holds.
    pub closed spec fn entries(&self) -> Entries {
        self.world.entries()
    }

    /// The format of the compressor.
    pub closed spec fn kind(&self) -> CompressorType {
        self.world.kind()
    }

    /// What the cache holds: decoded chunks by digest.
    pub closed spec fn cached(&self) -> Map<u64, ChunkView> {
        Map::new(|digest: u64| self.cache@.contains_key(digest), |digest: u64| self.cache@[digest]@)
    }

    /// The level of the compressor.
    pub closed spec fn level(&self) -> u32 {
        self.world.level()
    }

    /// The most chunks the cache may hold, `None` where it is not bounded.
    pub closed spec fn limit(&self) -> Option<usize> {
        self.limit
    }

    /// The cache holds only what the backend holds, and no more chunks
    /// than its limit.
    pub closed spec fn well_formed(&self) -> bool {
        &&& coherent(self.entries(), self.kind(), self.cached())
        &&& self.limit matches Some(most) ==> self.cache@.len() <= most
    }

    /// Whether the cache or the backend has a chunk for `(x, z)`.
    pub open spec fn shows(&self, x: i32, z: i32) -> bool {
        self.cached().contains_key(chunk_digest(x, z)) || chunk_present(self.entries(), x, z)
    }

    /// A cache over `world` that is empty and not bounded.
    pub fn new(world: World<B>) -> (r: Self)
        ensures
            r.well_formed(),
            r.entries() == world.entries(),
            r.kind() == world.kind(),
            r.level() == world.level(),
            r.cached() == Map::<u64, ChunkView>::empty(),
            r.limit() is None,
    {
        broadcast use vstd::std_specs::hash::group_hash_axioms;
        let r = Database { world, cache: HashMap::new(), limit: None };
        assert(r.cached() =~= Map::<u64, ChunkView>::empty());
        r
    }

    /// A cache over `world` that is empty and holds `most` chunks at most.
    pub fn with_limit(world: World<B>, most: usize) -> (r: Self)
        ensures
            r.well_formed(),
            r.entries() == world.entries(),
            r.kind() == world.kind(),
            r.level() == world.level(),
            r.cached() == Map::<u64, ChunkView>::empty(),
            r.limit() == Some(most),
    {
        broadcast use vstd::std_specs::hash::group_hash_axioms;
        let r = Database { world, cache: HashMap::new(), limit: Some(most) };
        assert(r.cached() =~= Map::<u64, ChunkView>::empty());
        r
    }

    /// The world behind the cache.
    pub fn into_world(self) -> (r: World<B>)
        ensures
            r.entries() == self.entries(),
            r.kind() == self.kind(),
            r.level() == self.level(),
    {
        self.world
    }

    /// Forgets every cached chunk.
    pub fn clear_cache(&mut self)
        requires
            old(self).well_formed(),
        ensures
            final(self).well_formed(),
            final(self).entries() == old(self).entries(),
            final(self).kind() == old(self).kind(),
            final(self).limit() == old(self).limit(),
            final(self).level() == old(self).level(),
            final(self).cached() == Map::<u64, ChunkView>::empty(),
    {
        broadcast use vstd::std_specs::hash::group_hash_axioms;
        self.cache.clear();
        assert(self.cached() =~= Map::<u64, ChunkView>::empty());
    }

    /// Puts `chunk` in the cache under `digest`, making room first where
    /// the cache is full: every other chunk is then forgotten. A cache
    /// bounded to nothing stays empty.
    fn remember(&mut self, digest: u64, chunk: Chunk)
        requires
            old(self).limit matches Some(most) ==> old(self).cache@.len() <= most,
        ensures
            final(self).world == old(self).world,
            final(self).limit == old(self).limit,
            final(self).limit matches Some(most) ==> final(self).cache@.len() <= most,
            took_in(
                old(self).cached(),
                digest,
                chunk@,
                old(self).limit,
                final(self).cached(),
            ),
    {
        broadcast use vstd::std_specs::hash::group_hash_axioms;
        match self.limit {
            Some(most) => {
                if most == 0 {
                    assert(self.cache@.len() == 0);
                    assert(self.cache@.dom().finite());
                    assert(self.cache@.dom() =~= Set::<u64>::empty()) by {
                        if self.cache@.dom().len() == 0 {
                            vstd::set_lib::lemma_set_empty_equivalency_len(self.cache@.dom());
                        }
                    }
                    assert(self.cached() =~= Map::<u64, ChunkView>::empty());
                    return ;
                }
                if self.cache.len() >= most && !self.cache.contains_key(&digest) {
                    self.cache.clear();
                }
                assert(self.cache@.len() < most || self.cache@.contains_key(digest));
            },
            None => {},
        }
        let ghost before = self.cache@;
        self.cache.insert(digest, chunk);
        proof {
            assert(self.cache@ == before.insert(digest, chunk));
            assert(before.dom().finite());
            if before.contains_key(digest) {
                assert(before.insert(digest, chunk).dom() =~= before.dom());
            }
            assert(part_of(self.cached(), old(self).cached().insert(digest, chunk@)));
            assert(self.cached().contains_key(digest) && self.cached()[digest] == chunk@);
            if self.limit is None {
                assert(self.cached() =~= old(self).cached().insert(digest, chunk@));
            }
        }
    }

    /// Stores a chunk: in the backend first, then in the cache. Where the
    /// backend fails the cache stays as it was. A chunk already stored for
    /// the same coordinates is replaced.
    pub fn insert_chunk(&mut self, value: Chunk) -> (r: Result<(), WorldError>)
        requires
            old(self).well_formed(),
        ensures
            final(self).well_formed(),
            final(self).kind() == old(self).kind(),
            final(self).limit() == old(self).limit(),
            final(self).level() == old(self).level(),
            !chunk_packs(old(self).kind(), old(self).level(), value@) ==> (r matches Err(e)
                && is_packing_failure(e)),
            match r {
                Ok(()) => chunk_saved(
                    old(self).entries(),
                    old(self).kind(),
                    value@,
                    final(self).entries(),
                ) && took_in(
                    old(self).cached(),
                    chunk_digest(value@.x, value@.z),
                    value@,
                    old(self).limit(),
                    final(self).cached(),
                ),
                Err(e) => final(self).entries() == old(self).entries() && final(self).cached()
                    == old(self).cached() && e is Storage,
            },
    {
        let key = hash(value.x, value.z);
        let chunk = value.clone();
        match self.world.save_chunk(chunk) {
            Err(e) => Err(e),
            Ok(()) => {
                let ghost saved = self.entries();
                self.remember(key, value);
                proof {
                    lemma_save_keeps_coherent(
                        old(self).entries(),
                        old(self).kind(),
                        value@,
                        saved,
                        old(self).cached(),
                        self.cached(),
                    );
                }
                Ok(())
            },
        }
    }

    /// Stores the new state of a chunk: as [`Database::insert_chunk`].
    pub fn update_chunk(&mut self, value: Chunk) -> (r: Result<(), WorldError>)
        requires
            old(self).well_formed(),
        ensures
            final(self).well_formed(),
            final(self).kind() == old(self).kind(),
            final(self).limit() == old(self).limit(),
            final(self).level() == old(self).level(),
            !chunk_packs(old(self).kind(), old(self).level(), value@) ==> (r matches Err(e)
                && is_packing_failure(e)),
            match r {
                Ok(()) => chunk_saved(
                    old(self).entries(),
                    old(self).kind(),
                    value@,
                    final(self).entries(),
                ) && took_in(
                    old(self).cached(),
                    chunk_digest(value@.x, value@.z),
                    value@,
                    old(self).limit(),
                    final(self).cached(),
                ),
                Err(e) => final(self).entries() == old(self).entries() && final(self).cached()
                    == old(self).cached() && e is Storage,
            },
    {
        self.insert_chunk(value)
    }

    /// The chunk for `(x, z)`; `ChunkNotFound` where none is cached and
    /// none is stored. A cached chunk is returned without a word to the
    /// backend; another is loaded, put in the cache and returned. A load
    /// that fails leaves the cache as it was, so that the next load asks
    /// the backend again. What is returned is a copy: changing it changes
    /// nothing in the cache.
    pub fn get_chunk(&mut self, x: i32, z: i32) -> (r: Result<Chunk, WorldError>)
        requires
            old(self).well_formed(),
        ensures
            final(self).well_formed(),
            final(self).entries() == old(self).entries(),
            final(self).kind() == old(self).kind(),
            final(self).limit() == old(self).limit(),
            final(self).level() == old(self).level(),
            old(self).cached().contains_key(chunk_digest(x, z)) ==> (r matches Ok(chunk) && chunk@
                == old(self).cached()[chunk_digest(x, z)]),
            match r {
                Ok(chunk) => stored_chunk(old(self).entries(), old(self).kind(), x, z) == Ok::<
                    ChunkView,
                    WorldError,
                >(chunk@) && brought_in(
                    old(self).entries(),
                    old(self).kind(),
                    x,
                    z,
                    old(self).cached(),
                    old(self).limit(),
                    final(self).cached(),
                ),
                Err(e) => final(self).cached() == old(self).cached() && !old(
                    self,
                ).cached().contains_key(chunk_digest(x, z)) && (e is Storage || stored_chunk(
                    old(self).entries(),
                    old(self).kind(),
                    x,
                    z,
                ) == Err::<ChunkView, WorldError>(e)),
            },
    {
        broadcast use vstd::std_specs::hash::group_hash_axioms;
        let key = hash(x, z);
        match self.cache.get(&key) {
            Some(held) => {
                let chunk = held.clone();
                assert(self.cached().contains_key(key));
                return Ok(chunk);
            },
            None => {},
        }
        assert(!self.cached().contains_key(key));
        match self.world.load_chunk(x, z) {
            Ok(chunk) => {
                let copy = chunk.clone();
                self.remember(key, chunk);
                proof {
                    assert forall|digest: u64| #[trigger]
                        self.cached().contains_key(digest) implies self.entries().contains_key(
                        (chunks_table(), digest),
                    ) && record_chunk(self.kind(), self.entries()[(chunks_table(), digest)]) == Ok::<
                        ChunkView,
                        Damage,
                    >(self.cached()[digest]) by {
                        if digest != key {
                            assert(old(self).cached().contains_key(digest));
                        }
                    }
                }
                Ok(copy)
            },
            Err(e) => Err(e),
        }
    }

    /// Brings the chunk for `(x, z)` into the cache, where one is stored
    /// and the cache does not hold it yet. That none is stored is no
    /// error; a record that cannot be read back is.
    pub fn load_into_cache(&mut self, x: i32, z: i32) -> (r: Result<(), WorldError>)
        requires
            old(self).well_formed(),
        ensures
            final(self).well_formed(),
            final(self).entries() == old(self).entries(),
            final(self).kind() == old(self).kind(),
            final(self).limit() == old(self).limit(),
            final(self).level() == old(self).level(),
            old(self).cached().contains_key(chunk_digest(x, z)) ==> r is Ok && final(self).cached()
                == old(self).cached(),
            r is Ok ==> brought_in(
                old(self).entries(),
                old(self).kind(),
                x,
                z,
                old(self).cached(),
                old(self).limit(),
                final(self).cached(),
            ),
            r matches Err(e) ==> final(self).cached() == old(self).cached() && (e is Storage || (e
                is Corruption && stored_chunk(old(self).entries(), old(self).kind(), x, z) == Err::<
                ChunkView,
                WorldError,
            >(e))),
    {
        proof {
            if old(self).cached().contains_key(chunk_digest(x, z)) {
                lemma_cache_agrees(
                    old(self).entries(),
                    old(self).kind(),
                    old(self).cached(),
                    x,
                    z,
                );
            }
        }
        match self.get_chunk(x, z) {
            Ok(_) => Ok(()),
            Err(WorldError::ChunkNotFound) => Ok(()),
            Err(e) => Err(e),
        }
    }

    /// Whether a chunk is stored for `(x, z)`. A cached chunk answers
    /// without a word to the backend; otherwise the chunk is loaded, and
    /// put in the cache where it is there.
    pub fn chunk_exists(&mut self, x: i32, z: i32) -> (r: Result<bool, WorldError>)
        requires
            old(self).well_formed(),
        ensures
            final(self).well_formed(),
            final(self).entries() == old(self).entries(),
            final(self).kind() == old(self).kind(),
            final(self).limit() == old(self).limit(),
            final(self).level() == old(self).level(),
            old(self).cached().contains_key(chunk_digest(x, z)) ==> r == Ok::<bool, WorldError>(
                true,
            ) && final(self).cached() == old(self).cached(),
            match r {
                Ok(found) => found == old(self).shows(x, z) && found == chunk_present(
                    old(self).entries(),
                    x,
                    z,
                ) && brought_in(
                    old(self).entries(),
                    old(self).kind(),
                    x,
                    z,
                    old(self).cached(),
                    old(self).limit(),
                    final(self).cached(),
                ),
                Err(e) => final(self).cached() == old(self).cached() && (e is Storage || (e
                    is Corruption && stored_chunk(old(self).entries(), old(self).kind(), x, z) == Err::<
                    ChunkView,
                    WorldError,
                >(e))),
            },
    {
        broadcast use vstd::std_specs::hash::group_hash_axioms;
        let key = hash(x, z);
        if self.cache.contains_key(&key) {
            assert(self.cached().contains_key(key));
            return Ok(true);
        }
        match self.get_chunk(x, z) {
            Ok(_) => Ok(true),
            Err(WorldError::ChunkNotFound) => Ok(false),
            Err(e) => Err(e),
        }
    }

    /// Deletes the chunk for `(x, z)`: from the cache first, then from the
    /// backend. Where the backend fails the chunk stays out of the cache.
    /// That none is stored is no error.
    pub fn delete_chunk(&mut self, x: i32, z: i32) -> (r: Result<(), WorldError>)
        requires
            old(self).well_formed(),
        ensures
            final(self).well_formed(),
            final(self).kind() == old(self).kind(),
            final(self).limit() == old(self).limit(),
            final(self).level() == old(self).level(),
            final(self).cached() == old(self).cached().remove(chunk_digest(x, z)),
            match r {
                Ok(()) => chunk_deleted(old(self).entries(), x, z, final(self).entries())
                    && !final(self).shows(x, z),
                Err(e) => final(self).entries() == old(self).entries() && is_failed_delete(e),
            },
    {
        broadcast use vstd::std_specs::hash::group_hash_axioms;
        let key = hash(x, z);
        let ghost before = self.cache@;
        self.cache.remove(&key);
        proof {
            assert(self.cache@ == before.remove(key));
            assert(before.dom().finite());
            assert(self.cache@.len() <= before.len()) by {
                if before.contains_key(key) {
                } else {
                    assert(before.remove(key) =~= before);
                }
            }
            assert(self.cached() =~= old(self).cached().remove(key));
        }
        let r = self.world.delete_chunk(x, z);
        proof {
            assert forall|digest: u64| #[trigger]
                self.cached().contains_key(digest) implies self.entries().contains_key(
                (chunks_table(), digest),
            ) && record_chunk(self.kind(), self.entries()[(chunks_table(), digest)]) == Ok::<
                ChunkView,
                Damage,
            >(self.cached()[digest]) by {
                assert(old(self).cached().contains_key(digest));
            }
        }
        r
    }

    /// Takes `digest` out of the cache.
    fn forget(&mut self, digest: u64)
        requires
            old(self).limit matches Some(most) ==> old(self).cache@.len() <= most,
        ensures
            final(self).world == old(self).world,
            final(self).limit == old(self).limit,
            final(self).limit matches Some(most) ==> final(self).cache@.len() <= most,
            final(self).cached() == old(self).cached().remove(digest),
    {
        broadcast use vstd::std_specs::hash::group_hash_axioms;

        let ghost before = self.cache@;
        self.cache.remove(&digest);
        proof {
            assert(self.cache@ == before.remove(digest));
            assert(before.dom().finite());
            if !before.contains_key(digest) {
                assert(before.remove(digest) =~= before);
            }
            assert(self.cached() =~= old(self).cached().remove(digest));
        }
    }

    /// Stores all of `values`: each is put in the cache first, so that
    /// reads are warm at once, then all go to the backend in one batch.
    /// Afterwards the cache holds every chunk of the batch where it is not
    /// bounded, and the last one at least where it holds any.
    /// Where the backend fails, every chunk of the batch is taken out of
    /// the cache again before the error is returned: the backend holds
    /// what it held, and the cache shows nothing that the backend does
    /// not hold.
    pub fn batch_insert(&mut self, values: Vec<Chunk>) -> (r: Result<(), WorldError>)
        requires
            old(self).well_formed(),
        ensures
            final(self).well_formed(),
            final(self).kind() == old(self).kind(),
            final(self).limit() == old(self).limit(),
            final(self).level() == old(self).level(),
            !all_chunks_pack(old(self).kind(), old(self).level(), values.deep_view()) ==> (r matches Err(
                e,
            ) && is_packing_failure(e)),
            match r {
                Ok(()) => {
                    &&& chunks_saved(
                        old(self).entries(),
                        old(self).kind(),
                        values.deep_view(),
                        final(self).entries(),
                    )
                    &&& warmed(old(self).cached(), values.deep_view(), final(self).cached())
                    &&& old(self).limit() is None ==> all_cached(
                        final(self).cached(),
                        digests_of(values.deep_view()),
                    )
                    &&& old(self).limit() != Some(0usize) ==> last_cached(
                        final(self).cached(),
                        digests_of(values.deep_view()),
                    )
                },
                Err(e) => {
                    &&& e is Storage
                    &&& final(self).entries() == old(self).entries()
                    &&& part_of(final(self).cached(), old(self).cached())
                    &&& none_cached(final(self).cached(), digests_of(values.deep_view()))
                },
            },
    {
        let ghost model = values.deep_view();
        let ghost start = self.cached();
        let mut i: usize = 0;
        while i < values.len()
            invariant
                i <= values.len(),
                model == values.deep_view(),
                model.len() == values.len(),
                self.world == old(self).world,
                self.limit == old(self).limit,
                self.limit matches Some(most) ==> self.cache@.len() <= most,
                warmed(start, model.take(i as int), self.cached()),
                self.limit is None ==> all_cached(self.cached(), digests_of(model).take(i as int)),
                self.limit != Some(0usize) ==> last_cached(
                    self.cached(),
                    digests_of(model).take(i as int),
                ),
            decreases values.len() - i,
        {
            let key = hash(values[i].x, values[i].z);
            let chunk = values[i].clone();
            let ghost before = self.cached();
            self.remember(key, chunk);
            proof {
                assert(model[i as int] == values[i as int]@);
                lemma_warmed_push(
                    start,
                    model.take(i as int),
                    before,
                    model[i as int],
                    self.cached(),
                );
                assert(model.take(i + 1) =~= model.take(i as int).push(model[i as int]));
                let digests = digests_of(model);
                assert(digests[i as int] == key);
                assert(digests.take(i + 1).last() == key);
                if self.limit is None {
                    assert forall|k: int| 0 <= k < i + 1 implies self.cached().contains_key(
                        #[trigger] digests.take(i + 1)[k],
                    ) by {
                        if k < i {
                            assert(before.contains_key(digests.take(i as int)[k]));
                        }
                    }
                }
            }
            i += 1;
        }
        proof {
            assert(model.take(i as int) =~= model);
            assert(digests_of(model).take(i as int) =~= digests_of(model));
        }
        let ghost warm = self.cached();
        match self.world.save_chunks(&values) {
            Ok(()) => {
                proof {
                    lemma_warmed_coherent(
                        old(self).entries(),
                        old(self).kind(),
                        start,
                        model,
                        warm,
                        self.entries(),
                    );
                }
                Ok(())
            },
            Err(e) => {
                let mut j: usize = 0;
                while j < values.len()
                    invariant
                        j <= values.len(),
                        model == values.deep_view(),
                        model.len() == values.len(),
                        self.world.entries() == old(self).world.entries(),
                        self.world.kind() == old(self).world.kind(),
                        self.world.level() == old(self).world.level(),
                        self.limit == old(self).limit,
                        self.limit matches Some(most) ==> self.cache@.len() <= most,
                        part_of(self.cached(), warm),
                        forall|k: int|
                            0 <= k < j ==> !self.cached().contains_key(
                                #[trigger] digests_of(model)[k],
                            ),
                    decreases values.len() - j,
                {
                    let key = hash(values[j].x, values[j].z);
                    proof {
                        assert(model[j as int] == values[j as int]@);
                        assert(digests_of(model)[j as int] == key);
                    }
                    self.forget(key);
                    j += 1;
                }
                proof {
                    lemma_cooled(start, model, warm, self.cached());
                    lemma_part_coherent(
                        old(self).entries(),
                        old(self).kind(),
                        start,
                        self.cached(),
                    );
                }
                Err(e)
            },
        }
    }

    /// Makes every completed write durable: where it succeeds, what is
    /// secured is what the backend holds. The cache stays as it is.
    pub fn sync(&mut self) -> (r: Result<(), WorldError>)
        requires
            old(self).well_formed(),
        ensures
            final(self).well_formed(),
            final(self).entries() == old(self).entries(),
            final(self).kind() == old(self).kind(),
            final(self).limit() == old(self).limit(),
            final(self).level() == old(self).level(),
            final(self).cached() == old(self).cached(),
            r is Ok ==> final(self).durable() == final(self).entries(),
            r matches Err(e) ==> e is Storage,
    {
        self.world.sync()
    }

    /// What is secured of what the backend holds: what would be found if
    /// the process stopped now.
    pub closed spec fn durable(&self) -> Entries {
        self.world.durable()
    }
}

/// Whether `after` is the cache `before` once `chunk` was put in it under
/// `digest`, in a cache of limit `limit`: it holds `chunk` there, unless
/// it is bounded to nothing and stays empty; it holds nothing that
/// `before` did not hold; and where it is not bounded it forgot nothing.
pub open spec fn took_in(
    before: Map<u64, ChunkView>,
    digest: u64,
    chunk: ChunkView,
    limit: Option<usize>,
    after: Map<u64, ChunkView>,
) -> bool {
    &&& part_of(after, before.insert(digest, chunk))
    &&& limit == Some(0usize) ==> after == before
    &&& limit != Some(0usize) ==> after.contains_key(digest) && after[digest] == chunk
    &&& limit is None ==> after == before.insert(digest, chunk)
}

/// Whether `after` is the cache `before` once the chunk for `(x, z)` was
/// brought into it from the backend: a cache that held the chunk is as it
/// was, and so is any cache where the backend holds none; otherwise the
/// cache took the stored chunk in.
pub open spec fn brought_in(
    entries: Entries,
    kind: CompressorType,
    x: i32,
    z: i32,
    before: Map<u64, ChunkView>,
    limit: Option<usize>,
    after: Map<u64, ChunkView>,
) -> bool {
    if before.contains_key(chunk_digest(x, z)) || !chunk_present(entries, x, z) {
        after == before
    } else {
        stored_chunk(entries, kind, x, z) is Ok && took_in(
            before,
            chunk_digest(x, z),
            stored_chunk(entries, kind, x, z)->Ok_0,
            limit,
            after,
        )
    }
}

} // verus!
