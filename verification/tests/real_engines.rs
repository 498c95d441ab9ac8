use redb::{ReadableTable, TableDefinition};
use world_storage::backend::DatabaseBackend;
use world_storage::chunk_format::{Chunk, Heightmaps};
use world_storage::config::DatabaseConfig;
use world_storage::errors::WorldError;
use world_storage::world::World;
use world_storage::backends::redb::{Opening, RedbBackend};
use world_storage::backends::script::{probe_keys, Decision, Reply, Request, Service, Stage};
use world_storage::backends::surrealkv::SurrealKVBackend;
use world_storage::errors::StorageError;

/// The B-tree engine on a file in a fresh directory, run by the rules.
struct OnRedb {
    db: redb::Database,
    _dir: tempfile::TempDir,
}

fn open_redb(dir: tempfile::TempDir) -> OnRedb {
    let file = dir.path().join("test.db");
    let exists = file.exists();
    let path = file.to_string_lossy().into_owned();
    let db = match RedbBackend::initialize(Some(path), exists).unwrap() {
        Opening::Create(path) => redb::Database::create(path).unwrap(),
        Opening::Open(path) => redb::Database::open(path).unwrap(),
    };
    OnRedb { db, _dir: dir }
}

fn setup_redb() -> OnRedb {
    let store = open_redb(tempfile::tempdir().unwrap());
    let table_def: TableDefinition<u64, &[u8]> = TableDefinition::new("test_table");
    let tx = store.db.begin_write().unwrap();
    {
        tx.open_table(table_def).unwrap();
    }
    tx.commit().unwrap();
    store
}

impl OnRedb {
    fn run(&mut self, table: &str, request: Request) -> Result<Reply, StorageError> {
        let table_def: TableDefinition<u64, &[u8]> = TableDefinition::new(table);
        let mut found = Vec::new();
        {
            let tx = self.db.begin_read().map_err(|e| {
                RedbBackend::failure(&request, true, Stage::Begin, e.to_string())
            })?;
            let open_table = tx.open_table(table_def).map_err(|e| {
                RedbBackend::failure(&request, true, Stage::Open, e.to_string())
            })?;
            for key in probe_keys(&request) {
                let value = open_table.get(key).map_err(|e| {
                    RedbBackend::failure(&request, true, Stage::Apply, e.to_string())
                })?;
                found.push(value.map(|v| v.value().to_vec()));
            }
        }
        match RedbBackend::decide(request.clone(), found) {
            Decision::Finish(result) => result,
            Decision::Apply(stores, removals, reply) => {
                let tx = self.db.begin_write().map_err(|e| {
                    RedbBackend::failure(&request, false, Stage::Begin, e.to_string())
                })?;
                {
                    let mut open_table = tx.open_table(table_def).map_err(|e| {
                        RedbBackend::failure(&request, false, Stage::Open, e.to_string())
                    })?;
                    for (key, value) in stores {
                        open_table.insert(key, value.as_slice()).map_err(|e| {
                            RedbBackend::failure(&request, false, Stage::Apply, e.to_string())
                        })?;
                    }
                    for key in removals {
                        open_table.remove(key).map_err(|e| {
                            RedbBackend::failure(&request, false, Stage::Apply, e.to_string())
                        })?;
                    }
                }
                tx.commit().map_err(|e| {
                    RedbBackend::failure(&request, false, Stage::Commit, e.to_string())
                })?;
                Ok(reply)
            }
        }
    }
}

#[test]
fn redb_test_insert_and_get() {
    let mut backend = setup_redb();
    let key = 0;
    let value = b"test_value_for_insert_and_get".to_vec();

    backend.run("test_table", Request::Insert(key, value.clone())).unwrap();
    let retrieved_value = backend.run("test_table", Request::Get(key)).unwrap();
    assert_eq!(retrieved_value, Reply::Value(Some(value)));
}

#[test]
fn redb_test_delete() {
    let mut backend = setup_redb();
    let key = 1;
    let value = b"test_value_for_delete".to_vec();

    backend.run("test_table", Request::Insert(key, value.clone())).unwrap();
    backend.run("test_table", Request::Delete(key)).unwrap();
    let retrieved_value = backend.run("test_table", Request::Get(key)).unwrap();
    assert_eq!(retrieved_value, Reply::Value(None));
}

#[test]
fn redb_test_update() {
    let mut backend = setup_redb();
    let key = 2;
    let value = b"test_value_for_update".to_vec();
    let new_value = b"new_value_for_update".to_vec();

    backend.run("test_table", Request::Insert(key, value.clone())).unwrap();
    backend.run("test_table", Request::Update(key, new_value.clone())).unwrap();
    let retrieved_value = backend.run("test_table", Request::Get(key)).unwrap();
    assert_eq!(retrieved_value, Reply::Value(Some(new_value)));
}

#[test]
fn redb_test_upsert() {
    let mut backend = setup_redb();
    let key = 3;
    let value = b"test_value_for_upsert".to_vec();
    let new_value = b"new_value_for_upsert".to_vec();

    let inserted = backend.run("test_table", Request::Upsert(key, value.clone())).unwrap();
    assert_eq!(inserted, Reply::Existed(false));
    let updated = backend.run("test_table", Request::Upsert(key, new_value.clone())).unwrap();
    assert_eq!(updated, Reply::Existed(true));
    let retrieved_value = backend.run("test_table", Request::Get(key)).unwrap();
    assert_eq!(retrieved_value, Reply::Value(Some(new_value)));
}

#[test]
fn redb_reports_strict_errors_and_keeps_the_table() {
    let mut backend = setup_redb();
    backend.run("test_table", Request::Insert(5, vec![1])).unwrap();
    assert_eq!(
        backend.run("test_table", Request::Insert(5, vec![2])),
        Err(StorageError::KeyExists(5))
    );
    assert_eq!(
        backend.run("test_table", Request::Update(6, vec![2])),
        Err(StorageError::KeyNotFound(6))
    );
    assert_eq!(
        backend.run("test_table", Request::Delete(6)),
        Err(StorageError::KeyNotFound(6))
    );
    assert_eq!(
        backend.run("test_table", Request::BatchGet(vec![5, 6])),
        Ok(Reply::Values(vec![Some(vec![1]), None]))
    );
}

#[test]
fn redb_reads_of_an_undeclared_table_are_read_errors() {
    let mut backend = setup_redb();
    assert!(matches!(
        backend.run("no_such_table", Request::Get(1)),
        Err(StorageError::ReadError(_))
    ));
}

#[test]
fn redb_batch_is_one_transaction() {
    let mut backend = setup_redb();
    let data = vec![(1, vec![1]), (2, vec![2]), (1, vec![3])];
    assert_eq!(backend.run("test_table", Request::BatchInsert(data)), Ok(Reply::Done));
    assert_eq!(
        backend.run("test_table", Request::BatchGet(vec![1, 2, 3])),
        Ok(Reply::Values(vec![Some(vec![3]), Some(vec![2]), None]))
    );
    assert_eq!(backend.run("test_table", Request::Exists(2)), Ok(Reply::Existed(true)));
}

/// The append-log engine in a fresh directory, run by the rules.
struct OnSurreal {
    db: Option<surrealkv::Store>,
    runtime: tokio::runtime::Runtime,
    _dir: tempfile::TempDir,
}

impl Drop for OnSurreal {
    fn drop(&mut self) {
        // the store closes itself on a task: it must go while the runtime is there
        let _guard = self.runtime.enter();
        self.db.take();
    }
}

fn setup_surreal() -> OnSurreal {
    let dir = tempfile::tempdir().unwrap();
    let path = SurrealKVBackend::initialize(Some(dir.path().to_string_lossy().into_owned()))
        .unwrap();
    let options = surrealkv::Options {
        dir: std::path::PathBuf::from(path),
        disk_persistence: true,
        ..Default::default()
    };
    let runtime = tokio::runtime::Builder::new_multi_thread().enable_all().build().unwrap();
    let db = {
        let _guard = runtime.enter();
        surrealkv::Store::new(options).unwrap()
    };
    OnSurreal { db: Some(db), runtime, _dir: dir }
}

impl OnSurreal {
    fn run(&mut self, table: &str, request: Request) -> Result<Reply, StorageError> {
        let _guard = self.runtime.enter();
        let db = self.db.as_ref().unwrap();
        let mut found = Vec::new();
        {
            let mut tx = db.begin().map_err(|e| {
                SurrealKVBackend::failure(&request, true, Stage::Begin, e.to_string())
            })?;
            for key in probe_keys(&request) {
                let value = tx.get(&SurrealKVBackend::modified_key(table, key)).map_err(|e| {
                    SurrealKVBackend::failure(&request, true, Stage::Apply, e.to_string())
                })?;
                found.push(value);
            }
        }
        match SurrealKVBackend::decide(request.clone(), found) {
            Decision::Finish(result) => result,
            Decision::Apply(stores, removals, reply) => {
                let mut tx = db.begin().map_err(|e| {
                    SurrealKVBackend::failure(&request, false, Stage::Begin, e.to_string())
                })?;
                for (key, value) in stores {
                    tx.set(&SurrealKVBackend::modified_key(table, key), &value).map_err(|e| {
                        SurrealKVBackend::failure(&request, false, Stage::Apply, e.to_string())
                    })?;
                }
                for key in removals {
                    tx.delete(&SurrealKVBackend::modified_key(table, key)).map_err(|e| {
                        SurrealKVBackend::failure(&request, false, Stage::Apply, e.to_string())
                    })?;
                }
                self.runtime.block_on(tx.commit()).map_err(|e| {
                    SurrealKVBackend::failure(&request, false, Stage::Commit, e.to_string())
                })?;
                Ok(reply)
            }
        }
    }
}

#[test]
fn surrealkv_test_insert_and_get() {
    let mut backend = setup_surreal();
    let key = 0;
    let value = b"test_value_for_insert_and_get".to_vec();

    backend.run("test_table", Request::Insert(key, value.clone())).unwrap();
    let retrieved_value = backend.run("test_table", Request::Get(key)).unwrap();
    assert_eq!(retrieved_value, Reply::Value(Some(value)));
}

#[test]
fn surrealkv_test_delete() {
    let mut backend = setup_surreal();
    let key = 1;
    let value = b"test_value_for_delete".to_vec();

    backend.run("test_table", Request::Insert(key, value.clone())).unwrap();
    backend.run("test_table", Request::Delete(key)).unwrap();
    let retrieved_value = backend.run("test_table", Request::Get(key)).unwrap();
    assert_eq!(retrieved_value, Reply::Value(None));
}

#[test]
fn surrealkv_test_update() {
    let mut backend = setup_surreal();
    let key = 2;
    let value = b"test_value_for_update".to_vec();
    let new_value = b"new_value_for_update".to_vec();

    backend.run("test_table", Request::Insert(key, value.clone())).unwrap();
    backend.run("test_table", Request::Update(key, new_value.clone())).unwrap();
    let retrieved_value = backend.run("test_table", Request::Get(key)).unwrap();
    assert_eq!(retrieved_value, Reply::Value(Some(new_value)));
}

#[test]
fn surrealkv_test_upsert() {
    let mut backend = setup_surreal();
    let key = 3;
    let value = b"test_value_for_upsert".to_vec();
    let new_value = b"new_value_for_upsert".to_vec();

    let inserted = backend.run("test_table", Request::Upsert(key, value.clone())).unwrap();
    assert_eq!(inserted, Reply::Existed(false));
    let updated = backend.run("test_table", Request::Upsert(key, new_value.clone())).unwrap();
    assert_eq!(updated, Reply::Existed(true));
    let retrieved_value = backend.run("test_table", Request::Get(key)).unwrap();
    assert_eq!(retrieved_value, Reply::Value(Some(new_value)));
}

#[test]
fn surrealkv_keeps_tables_apart() {
    let mut backend = setup_surreal();
    backend.run("a", Request::Insert(1, vec![1])).unwrap();
    backend.run("b", Request::Insert(1, vec![2])).unwrap();
    assert_eq!(backend.run("a", Request::Get(1)), Ok(Reply::Value(Some(vec![1]))));
    assert_eq!(backend.run("b", Request::Get(1)), Ok(Reply::Value(Some(vec![2]))));
    assert_eq!(backend.run("a", Request::Delete(2)), Ok(Reply::Done));
}

impl DatabaseBackend for OnRedb {
    fn create_table(&mut self, table: String) -> Result<(), StorageError> {
        let table_def: TableDefinition<u64, &[u8]> = TableDefinition::new(&table);
        let tx = self
            .db
            .begin_write()
            .map_err(|e| RedbBackend::service_failure(Service::CreateTable, e.to_string()))?;
        {
            tx.open_table(table_def)
                .map_err(|e| RedbBackend::service_failure(Service::CreateTable, e.to_string()))?;
        }
        tx.commit().map_err(|e| RedbBackend::service_failure(Service::CreateTable, e.to_string()))
    }

    fn insert(&mut self, table: String, key: u64, value: Vec<u8>) -> Result<(), StorageError> {
        self.run(&table, Request::Insert(key, value)).map(|_| ())
    }

    fn get(&self, table: String, key: u64) -> Result<Option<Vec<u8>>, StorageError> {
        let table_def: TableDefinition<u64, &[u8]> = TableDefinition::new(&table);
        let request = Request::Get(key);
        let fault = |stage: Stage, e: String| RedbBackend::failure(&request, true, stage, e);
        let tx = self.db.begin_read().map_err(|e| fault(Stage::Begin, e.to_string()))?;
        let open_table = tx.open_table(table_def).map_err(|e| fault(Stage::Open, e.to_string()))?;
        let value = open_table.get(key).map_err(|e| fault(Stage::Apply, e.to_string()))?;
        match RedbBackend::decide(request.clone(), vec![value.map(|v| v.value().to_vec())]) {
            Decision::Finish(Ok(Reply::Value(found))) => Ok(found),
            Decision::Finish(Err(e)) => Err(e),
            _ => unreachable!(),
        }
    }

    fn delete(&mut self, table: String, key: u64) -> Result<(), StorageError> {
        self.run(&table, Request::Delete(key)).map(|_| ())
    }

    fn update(&mut self, table: String, key: u64, value: Vec<u8>) -> Result<(), StorageError> {
        self.run(&table, Request::Update(key, value)).map(|_| ())
    }

    fn upsert(&mut self, table: String, key: u64, value: Vec<u8>) -> Result<bool, StorageError> {
        match self.run(&table, Request::Upsert(key, value))? {
            Reply::Existed(prior) => Ok(prior),
            _ => unreachable!(),
        }
    }

    fn key_exists(&self, table: String, key: u64) -> Result<bool, StorageError> {
        Ok(self.get(table, key)?.is_some())
    }

    fn details(&self) -> String {
        RedbBackend::details()
    }

    fn batch_insert(&mut self, table: String, data: Vec<(u64, Vec<u8>)>) -> Result<(), StorageError> {
        self.run(&table, Request::BatchInsert(data)).map(|_| ())
    }

    fn batch_get(&self, table: String, keys: Vec<u64>) -> Result<Vec<Option<Vec<u8>>>, StorageError> {
        let mut found = Vec::new();
        for key in keys {
            found.push(self.get(table.clone(), key)?);
        }
        Ok(found)
    }

    fn flush(&mut self) -> Result<(), StorageError> {
        self.db
            .compact()
            .map(|_| ())
            .map_err(|e| RedbBackend::service_failure(Service::Flush, e.to_string()))
    }

    fn close(&mut self) -> Result<(), StorageError> {
        Ok(())
    }
}

fn full_chunk() -> Chunk {
    Chunk {
        dimension: String::new(),
        x: 0,
        z: 0,
        y_pos: 0,
        sections: Some(Vec::new()),
        heightmaps: Heightmaps { motion_blocking: None, world_surface: None },
        status: String::from("full"),
        data_version: 3953,
        last_update: None,
        inhabited_time: None,
        is_light_on: None,
    }
}

fn redb_config(compression: &str) -> DatabaseConfig {
    DatabaseConfig {
        backend: "redb".to_string(),
        db_path: "/tmp/w".to_string(),
        compression: compression.to_string(),
        compression_level: 3,
        import_path: "import".to_string(),
    }
}

#[test]
fn fresh_open_save_reopen_load_on_a_file() {
    let dir = tempfile::tempdir().unwrap();
    let (mut world, meta) = World::new(&redb_config("zstd"), open_redb(dir), None).unwrap();
    let meta = meta.unwrap();
    world.save_chunk(full_chunk()).unwrap();
    world.sync().unwrap();

    // close: the engine is dropped, the directory kept
    let OnRedb { db, _dir: dir } = world.into_backend();
    drop(db);

    let (reopened, again) =
        World::new(&redb_config("zstd"), open_redb(dir), Some(&meta)).unwrap();
    assert_eq!(again, None);
    assert_eq!(reopened.load_chunk(0, 0), Ok(full_chunk()));
    assert_eq!(reopened.load_chunk(0, 1), Err(WorldError::ChunkNotFound));
}

#[test]
fn reopening_a_file_under_another_compressor_is_a_mismatch() {
    let dir = tempfile::tempdir().unwrap();
    let (mut world, meta) = World::new(&redb_config("zstd"), open_redb(dir), None).unwrap();
    let meta = meta.unwrap();
    world.save_chunk(full_chunk()).unwrap();
    let OnRedb { db, _dir: dir } = world.into_backend();
    drop(db);

    let reopened = World::new(&redb_config("gzip"), open_redb(dir), Some(&meta));
    assert!(matches!(reopened, Err(WorldError::MetadataMismatch)));
}

#[test]
fn a_world_on_a_file_deletes_twice_without_error() {
    let dir = tempfile::tempdir().unwrap();
    let (mut world, _) = World::new(&redb_config("zstd"), open_redb(dir), None).unwrap();
    let mut chunk = full_chunk();
    chunk.x = 5;
    chunk.z = -7;
    world.save_chunk(chunk).unwrap();
    assert_eq!(world.delete_chunk(5, -7), Ok(()));
    assert_eq!(world.delete_chunk(5, -7), Ok(()));
    assert_eq!(world.chunk_exists(5, -7), Ok(false));
}
