use world_storage::backend::DatabaseBackend;
use world_storage::backends::envvars::EnvVarsBackend;
use world_storage::chunk_format::{Chunk, Heightmaps};
use world_storage::compressors::{Compressor, CompressorType};
use world_storage::config::DatabaseConfig;
use world_storage::errors::{Damage, StorageError, WorldError};
use world_storage::hashing::hash;
use world_storage::world::{tries_again, World, RETRY_LIMIT};

fn column(x: i32, z: i32) -> Chunk {
    Chunk {
        dimension: String::from("overworld"),
        x,
        z,
        y_pos: 0,
        sections: Some(Vec::new()),
        heightmaps: Heightmaps { motion_blocking: None, world_surface: None },
        status: String::from("full"),
        data_version: 3953,
        last_update: None,
        inhabited_time: None,
        is_light_on: None,
    }
}

fn settings(backend: &str, compression: &str) -> DatabaseConfig {
    DatabaseConfig {
        backend: backend.to_string(),
        db_path: "/tmp/w".to_string(),
        compression: compression.to_string(),
        compression_level: 3,
        import_path: "import".to_string(),
    }
}

fn memory() -> EnvVarsBackend {
    EnvVarsBackend::initialize(None).unwrap()
}

fn fresh_world() -> World<EnvVarsBackend> {
    World::from_parts(memory(), Compressor::create(CompressorType::Zstd, 3))
}

#[test]
fn saved_chunk_loads() {
    let mut world = fresh_world();
    world.save_chunk(column(0, 0)).unwrap();
    assert_eq!(world.load_chunk(0, 0), Ok(column(0, 0)));
}

#[test]
fn saved_chunk_loads_under_every_format() {
    for kind in [
        CompressorType::Zstd,
        CompressorType::Brotli,
        CompressorType::Deflate,
        CompressorType::Gzip,
        CompressorType::Zlib,
    ] {
        let mut world = World::from_parts(memory(), Compressor::create(kind, 5));
        world.save_chunk(column(-3, 8)).unwrap();
        assert_eq!(world.load_chunk(-3, 8), Ok(column(-3, 8)));
    }
}

#[test]
fn missing_chunk_is_not_found() {
    let world = fresh_world();
    assert_eq!(world.load_chunk(1, 1), Err(WorldError::ChunkNotFound));
    assert_eq!(world.chunk_exists(1, 1), Ok(false));
}

#[test]
fn saving_twice_is_saving_once() {
    let mut once = fresh_world();
    once.save_chunk(column(2, 3)).unwrap();
    let mut twice = fresh_world();
    twice.save_chunk(column(2, 3)).unwrap();
    twice.save_chunk(column(2, 3)).unwrap();
    for x in 0..5 {
        for z in 0..5 {
            assert_eq!(once.chunk_exists(x, z), twice.chunk_exists(x, z));
            assert_eq!(once.load_chunk(x, z), twice.load_chunk(x, z));
        }
    }
}

#[test]
fn a_later_save_replaces_an_earlier() {
    let mut world = fresh_world();
    world.save_chunk(column(2, 3)).unwrap();
    let mut changed = column(2, 3);
    changed.status = String::from("empty");
    changed.last_update = Some(77);
    world.save_chunk(changed.clone()).unwrap();
    assert_eq!(world.load_chunk(2, 3), Ok(changed));
}

#[test]
fn delete_twice_is_no_error() {
    let mut world = fresh_world();
    world.save_chunk(column(5, -7)).unwrap();
    assert_eq!(world.chunk_exists(5, -7), Ok(true));
    assert_eq!(world.delete_chunk(5, -7), Ok(()));
    assert_eq!(world.chunk_exists(5, -7), Ok(false));
    assert_eq!(world.delete_chunk(5, -7), Ok(()));
    assert_eq!(world.load_chunk(5, -7), Err(WorldError::ChunkNotFound));
    world.save_chunk(column(5, -7)).unwrap();
    assert_eq!(world.chunk_exists(5, -7), Ok(true));
}

#[test]
fn delete_leaves_the_neighbours() {
    let mut world = fresh_world();
    world.save_chunk(column(0, 0)).unwrap();
    world.save_chunk(column(0, 1)).unwrap();
    world.delete_chunk(0, 0).unwrap();
    assert_eq!(world.load_chunk(0, 1), Ok(column(0, 1)));
}

#[test]
fn a_damaged_record_spoils_its_own_key_only() {
    let mut backend = memory();
    backend.upsert("chunks".to_string(), hash(0, 0), vec![0]).unwrap();
    let mut world = World::from_parts(backend, Compressor::create(CompressorType::Zstd, 3));
    world.save_chunk(column(0, 1)).unwrap();
    assert_eq!(world.load_chunk(0, 0), Err(WorldError::Corruption(Damage::Compressed)));
    assert_eq!(world.chunk_exists(0, 0), Ok(true));
    assert_eq!(world.load_chunk(0, 1), Ok(column(0, 1)));
}

#[test]
fn a_record_of_garbage_is_reported_as_badly_encoded() {
    let compressor = Compressor::create(CompressorType::Gzip, 3);
    let packed = compressor.compress(b"not a chunk").unwrap();
    let mut backend = memory();
    backend.upsert("chunks".to_string(), hash(4, 4), packed).unwrap();
    let world = World::from_parts(backend, compressor);
    assert_eq!(world.load_chunk(4, 4), Err(WorldError::Corruption(Damage::Encoded)));
}

#[test]
fn a_record_is_stored_under_the_digest_of_the_coordinates() {
    let mut world = fresh_world();
    world.save_chunk(column(10, 10)).unwrap();
    let compressor = Compressor::create(CompressorType::Zstd, 3);
    let stored = world_storage::world::read_record(
        &compressor,
        &compressor
            .compress(&world_storage::codec::chunk::encode(&column(10, 10)))
            .unwrap(),
    );
    assert_eq!(stored, Ok(column(10, 10)));
}

#[test]
fn batch_save_stores_every_chunk() {
    let mut world = fresh_world();
    let chunks = vec![column(1, 1), column(1, 2), column(1, 3)];
    world.save_chunks(&chunks).unwrap();
    for chunk in chunks {
        assert_eq!(world.load_chunk(chunk.x, chunk.z), Ok(chunk));
    }
    assert_eq!(world.chunk_exists(1, 4), Ok(false));
}

#[test]
fn sync_changes_nothing() {
    let mut world = fresh_world();
    world.save_chunk(column(1, 1)).unwrap();
    assert_eq!(world.sync(), Ok(()));
    assert_eq!(world.sync(), Ok(()));
    assert_eq!(world.load_chunk(1, 1), Ok(column(1, 1)));
}

#[test]
fn fresh_open_save_reopen_load() {
    let config = settings("redb", "zstd");
    let (mut world, meta) = World::new(&config, memory(), None).unwrap();
    let meta = meta.unwrap();
    world.save_chunk(column(0, 0)).unwrap();

    // reopen: the same database, the metadata file as it was written
    let backend = {
        let mut copy = memory();
        let compressor = Compressor::create(CompressorType::Zstd, 3);
        let record = compressor
            .compress(&world_storage::codec::chunk::encode(&column(0, 0)))
            .unwrap();
        copy.upsert("chunks".to_string(), hash(0, 0), record).unwrap();
        copy
    };
    let (reopened, again) = World::new(&config, backend, Some(&meta)).unwrap();
    assert_eq!(again, None);
    assert_eq!(reopened.load_chunk(0, 0), Ok(column(0, 0)));
    assert_eq!(world.load_chunk(0, 0), Ok(column(0, 0)));
}

#[test]
fn reopening_under_another_compressor_is_a_mismatch() {
    let (_, meta) = World::new(&settings("redb", "zstd"), memory(), None).unwrap();
    let meta = meta.unwrap();
    let reopened = World::new(&settings("redb", "gzip"), memory(), Some(&meta));
    assert!(matches!(reopened, Err(WorldError::MetadataMismatch)));
}

#[test]
fn reopening_under_another_backend_is_a_mismatch() {
    let (_, meta) = World::new(&settings("redb", "zstd"), memory(), None).unwrap();
    let meta = meta.unwrap();
    let reopened = World::new(&settings("sled", "zstd"), memory(), Some(&meta));
    assert!(matches!(reopened, Err(WorldError::MetadataMismatch)));
}

#[test]
fn names_in_another_case_are_the_same_database() {
    let (_, meta) = World::new(&settings("redb", "zstd"), memory(), None).unwrap();
    let meta = meta.unwrap();
    let reopened = World::new(&settings(" ReDB ", "ZSTD\n"), memory(), Some(&meta));
    assert!(matches!(reopened, Ok((_, None))));
}

#[test]
fn unknown_names_are_refused() {
    assert!(matches!(
        World::new(&settings("lmdb", "zstd"), memory(), None),
        Err(WorldError::InvalidBackend(name)) if name == "lmdb"
    ));
    assert!(matches!(
        World::new(&settings("redb", "lz4"), memory(), None),
        Err(WorldError::InvalidCompressor(name)) if name == "lz4"
    ));
    assert!(matches!(
        World::new(&settings("", ""), memory(), None),
        Err(WorldError::InvalidBackend(name)) if name.is_empty()
    ));
}

#[test]
fn a_metadata_file_of_garbage_is_unreadable() {
    let opened = World::new(&settings("redb", "zstd"), memory(), Some(&[1, 2, 3]));
    assert!(matches!(opened, Err(WorldError::MetadataUnreadable)));
}

struct Broken;

impl DatabaseBackend for Broken {
    fn create_table(&mut self, _: String) -> Result<(), StorageError> {
        Err(StorageError::TableError("no tables".to_string()))
    }

    fn insert(&mut self, _: String, _: u64, _: Vec<u8>) -> Result<(), StorageError> {
        Err(StorageError::WriteError("broken".to_string()))
    }

    fn get(&self, _: String, _: u64) -> Result<Option<Vec<u8>>, StorageError> {
        Err(StorageError::ReadError("broken".to_string()))
    }

    fn delete(&mut self, _: String, key: u64) -> Result<(), StorageError> {
        Err(StorageError::KeyNotFound(key))
    }

    fn update(&mut self, _: String, _: u64, _: Vec<u8>) -> Result<(), StorageError> {
        Err(StorageError::WriteError("broken".to_string()))
    }

    fn upsert(&mut self, _: String, _: u64, _: Vec<u8>) -> Result<bool, StorageError> {
        Err(StorageError::CommitError("broken".to_string()))
    }

    fn key_exists(&self, _: String, _: u64) -> Result<bool, StorageError> {
        Err(StorageError::ReadError("broken".to_string()))
    }

    fn details(&self) -> String {
        "Broken".to_string()
    }

    fn batch_insert(&mut self, _: String, _: Vec<(u64, Vec<u8>)>) -> Result<(), StorageError> {
        Err(StorageError::WriteError("broken".to_string()))
    }

    fn batch_get(&self, _: String, _: Vec<u64>) -> Result<Vec<Option<Vec<u8>>>, StorageError> {
        Err(StorageError::ReadError("broken".to_string()))
    }

    fn flush(&mut self) -> Result<(), StorageError> {
        Err(StorageError::FlushError("broken".to_string()))
    }

    fn close(&mut self) -> Result<(), StorageError> {
        Err(StorageError::CloseError("broken".to_string()))
    }
}

#[test]
fn backend_errors_come_through_as_they_are() {
    let mut world = World::from_parts(Broken, Compressor::create(CompressorType::Zlib, 3));
    assert_eq!(
        world.save_chunk(column(0, 0)),
        Err(WorldError::Storage(StorageError::CommitError("broken".to_string())))
    );
    assert_eq!(
        world.load_chunk(0, 0),
        Err(WorldError::Storage(StorageError::ReadError("broken".to_string())))
    );
    assert_eq!(
        world.chunk_exists(0, 0),
        Err(WorldError::Storage(StorageError::ReadError("broken".to_string())))
    );
    assert_eq!(
        world.sync(),
        Err(WorldError::Storage(StorageError::FlushError("broken".to_string())))
    );
    assert_eq!(
        world.save_chunks(&vec![column(0, 0)]),
        Err(WorldError::Storage(StorageError::WriteError("broken".to_string())))
    );
}

#[test]
fn a_backend_that_misses_the_key_on_delete_is_no_error() {
    let mut world = World::from_parts(Broken, Compressor::create(CompressorType::Zlib, 3));
    assert_eq!(world.delete_chunk(0, 0), Ok(()));
}

#[test]
fn a_new_database_whose_table_cannot_be_declared_does_not_open() {
    let opened = World::new(&settings("redb", "zstd"), Broken, None);
    assert!(matches!(
        opened,
        Err(WorldError::Storage(StorageError::TableError(_)))
    ));
}

/// A backend in conflict for its first operations, and in order after.
struct Contended {
    inner: EnvVarsBackend,
    conflicts_left: std::cell::Cell<u32>,
    calls: std::cell::Cell<u32>,
}

fn contended(conflicts: u32) -> Contended {
    Contended {
        inner: memory(),
        conflicts_left: std::cell::Cell::new(conflicts),
        calls: std::cell::Cell::new(0),
    }
}

impl Contended {
    fn conflict(&self) -> Result<(), StorageError> {
        self.calls.set(self.calls.get() + 1);
        if self.conflicts_left.get() > 0 {
            self.conflicts_left.set(self.conflicts_left.get() - 1);
            return Err(StorageError::Conflict("busy".to_string()));
        }
        Ok(())
    }
}

impl DatabaseBackend for Contended {
    fn create_table(&mut self, table: String) -> Result<(), StorageError> {
        self.inner.create_table(table)
    }

    fn insert(&mut self, table: String, key: u64, value: Vec<u8>) -> Result<(), StorageError> {
        self.conflict()?;
        self.inner.insert(table, key, value)
    }

    fn get(&self, table: String, key: u64) -> Result<Option<Vec<u8>>, StorageError> {
        self.conflict()?;
        self.inner.get(table, key)
    }

    fn delete(&mut self, table: String, key: u64) -> Result<(), StorageError> {
        self.conflict()?;
        self.inner.delete(table, key)
    }

    fn update(&mut self, table: String, key: u64, value: Vec<u8>) -> Result<(), StorageError> {
        self.conflict()?;
        self.inner.update(table, key, value)
    }

    fn upsert(&mut self, table: String, key: u64, value: Vec<u8>) -> Result<bool, StorageError> {
        self.conflict()?;
        self.inner.upsert(table, key, value)
    }

    fn key_exists(&self, table: String, key: u64) -> Result<bool, StorageError> {
        self.conflict()?;
        self.inner.key_exists(table, key)
    }

    fn details(&self) -> String {
        self.inner.details()
    }

    fn batch_insert(&mut self, table: String, data: Vec<(u64, Vec<u8>)>) -> Result<(), StorageError> {
        self.conflict()?;
        self.inner.batch_insert(table, data)
    }

    fn batch_get(&self, table: String, keys: Vec<u64>) -> Result<Vec<Option<Vec<u8>>>, StorageError> {
        self.inner.batch_get(table, keys)
    }

    fn flush(&mut self) -> Result<(), StorageError> {
        self.conflict()?;
        self.inner.flush()
    }

    fn close(&mut self) -> Result<(), StorageError> {
        self.inner.close()
    }
}

#[test]
fn a_conflict_that_passes_is_not_seen() {
    let mut world =
        World::from_parts(contended(3), Compressor::create(CompressorType::Zstd, 3));
    assert_eq!(world.save_chunk(column(1, 1)), Ok(()));
    assert_eq!(world.load_chunk(1, 1), Ok(column(1, 1)));
    assert_eq!(world.into_backend().calls.get(), 5);
}

#[test]
fn a_conflict_that_stays_is_passed_on_after_three_more_tries() {
    let conflict = || Err(WorldError::Storage(StorageError::Conflict("busy".to_string())));
    let mut world =
        World::from_parts(contended(4), Compressor::create(CompressorType::Zstd, 3));
    assert_eq!(world.save_chunk(column(1, 1)), conflict());
    assert_eq!(world.into_backend().calls.get(), 4);

    let world = World::from_parts(contended(100), Compressor::create(CompressorType::Zstd, 3));
    assert_eq!(world.chunk_exists(1, 1), conflict().map(|_: ()| false));
    assert_eq!(world.load_chunk(1, 1), conflict().map(|_: ()| column(0, 0)));
    let mut world = world;
    assert_eq!(world.delete_chunk(1, 1), conflict());
    assert_eq!(world.sync(), conflict());
    assert_eq!(world.save_chunks(&vec![column(1, 1)]), conflict());
    assert_eq!(world.into_backend().calls.get(), 20);
}

#[test]
fn only_a_conflict_is_tried_again_and_only_three_times() {
    let conflict = StorageError::Conflict("busy".to_string());
    assert_eq!(RETRY_LIMIT, 3);
    assert!(tries_again(0, &conflict));
    assert!(tries_again(2, &conflict));
    assert!(!tries_again(3, &conflict));
    assert!(!tries_again(u32::MAX, &conflict));
    assert!(!tries_again(0, &StorageError::WriteError("busy".to_string())));
    assert!(!tries_again(0, &StorageError::KeyNotFound(1)));
}

#[test]
fn a_flush_in_conflict_is_tried_again() {
    let mut world =
        World::from_parts(contended(2), Compressor::create(CompressorType::Zstd, 3));
    assert_eq!(world.sync(), Ok(()));
    assert_eq!(world.into_backend().calls.get(), 3);
}
