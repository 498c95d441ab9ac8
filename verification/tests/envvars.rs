use world_storage::backend::DatabaseBackend;
use world_storage::backends::envvars::{variable_name, EnvVarsBackend};
use world_storage::errors::StorageError;

fn setup_backend() -> EnvVarsBackend {
    let mut backend = EnvVarsBackend::initialize(Some(String::from("test.db"))).unwrap();
    backend.create_table("test_table".to_string()).unwrap();
    backend
}

#[test]
fn envvars_test_insert_and_get() {
    let mut backend = setup_backend();
    let table = "test_table".to_string();
    let key = 0;
    let value = b"test_value_for_insert_and_get".to_vec();

    backend.insert(table.clone(), key, value.clone()).unwrap();
    let retrieved_value = backend.get(table, key).unwrap().unwrap();
    assert_eq!(retrieved_value, value);
}

#[test]
fn envvars_test_delete() {
    let mut backend = setup_backend();
    let table = "test_table".to_string();
    let key = 1;
    let value = b"test_value_for_delete".to_vec();

    backend.insert(table.clone(), key, value.clone()).unwrap();
    backend.delete(table.clone(), key).unwrap();
    let retrieved_value = backend.get(table, key).unwrap();
    assert!(retrieved_value.is_none());
}

#[test]
fn envvars_test_update() {
    let mut backend = setup_backend();
    let table = "test_table".to_string();
    let key = 2;
    let value = b"test_value_for_update".to_vec();
    let new_value = b"new_value_for_update".to_vec();

    backend.insert(table.clone(), key, value.clone()).unwrap();
    backend.update(table.clone(), key, new_value.clone()).unwrap();
    let retrieved_value = backend.get(table, key).unwrap().unwrap();
    assert_eq!(retrieved_value, new_value);
}

#[test]
fn envvars_test_upsert() {
    let mut backend = setup_backend();
    let table = "test_table".to_string();
    let key = 3;
    let value = b"test_value_for_upsert".to_vec();
    let new_value = b"new_value_for_upsert".to_vec();

    let inserted = backend.upsert(table.clone(), key, value.clone()).unwrap();
    assert!(!inserted);
    let updated = backend.upsert(table.clone(), key, new_value.clone()).unwrap();
    assert!(updated);
    let retrieved_value = backend.get(table, key).unwrap().unwrap();
    assert_eq!(retrieved_value, new_value);
}

#[test]
fn insert_is_strict() {
    let mut backend = setup_backend();
    backend.insert("t".to_string(), 7, vec![1]).unwrap();
    assert_eq!(backend.insert("t".to_string(), 7, vec![2]), Err(StorageError::KeyExists(7)));
    assert_eq!(backend.get("t".to_string(), 7), Ok(Some(vec![1])));
}

#[test]
fn update_needs_the_key() {
    let mut backend = setup_backend();
    assert_eq!(backend.update("t".to_string(), 7, vec![2]), Err(StorageError::KeyNotFound(7)));
    assert_eq!(backend.key_exists("t".to_string(), 7), Ok(false));
}

#[test]
fn delete_of_a_missing_key_is_no_error() {
    let mut backend = setup_backend();
    assert_eq!(backend.delete("t".to_string(), 9), Ok(()));
    backend.insert("t".to_string(), 9, vec![]).unwrap();
    assert_eq!(backend.delete("t".to_string(), 9), Ok(()));
    assert_eq!(backend.delete("t".to_string(), 9), Ok(()));
}

#[test]
fn tables_keep_their_keys_apart() {
    let mut backend = setup_backend();
    backend.insert("a".to_string(), 1, vec![1]).unwrap();
    backend.insert("b".to_string(), 1, vec![2]).unwrap();
    assert_eq!(backend.get("a".to_string(), 1), Ok(Some(vec![1])));
    assert_eq!(backend.get("b".to_string(), 1), Ok(Some(vec![2])));
    backend.delete("a".to_string(), 1).unwrap();
    assert_eq!(backend.key_exists("a".to_string(), 1), Ok(false));
    assert_eq!(backend.key_exists("b".to_string(), 1), Ok(true));
}

#[test]
fn binary_values_come_back_byte_for_byte() {
    let mut backend = setup_backend();
    let mut value = Vec::new();
    for i in 0..=255u8 {
        value.push(i);
    }
    backend.upsert("t".to_string(), u64::MAX, value.clone()).unwrap();
    assert_eq!(backend.get("t".to_string(), u64::MAX), Ok(Some(value)));
}

#[test]
fn batch_insert_keeps_the_later_of_two() {
    let mut backend = setup_backend();
    backend
        .batch_insert(
            "t".to_string(),
            vec![(1, vec![1]), (2, vec![2]), (1, vec![3])],
        )
        .unwrap();
    assert_eq!(
        backend.batch_get("t".to_string(), vec![1, 2, 3]),
        Ok(vec![Some(vec![3]), Some(vec![2]), None])
    );
}

#[test]
fn the_block_holds_base64_text() {
    let mut backend = setup_backend();
    backend.insert("chunks".to_string(), 42, b"hello".to_vec()).unwrap();
    let block = backend.export();
    assert_eq!(block.len(), 1);
    assert_eq!(block[0], ("42chunks".to_string(), "aGVsbG8=".to_string()));
}

#[test]
fn flush_and_close_do_nothing() {
    let mut backend = setup_backend();
    backend.insert("t".to_string(), 1, vec![1]).unwrap();
    assert_eq!(backend.flush(), Ok(()));
    assert_eq!(backend.close(), Ok(()));
    assert_eq!(backend.get("t".to_string(), 1), Ok(Some(vec![1])));
    assert_eq!(backend.details(), "EnvVars");
}

#[test]
fn variable_names_are_the_key_in_decimal_then_the_table() {
    assert_eq!(variable_name("test_table", 0), "0test_table");
    assert_eq!(variable_name("chunks", 7), "7chunks");
    assert_eq!(variable_name("chunks", 10), "10chunks");
    assert_eq!(variable_name("", 1234567890), "1234567890");
    assert_eq!(variable_name("t", u64::MAX), "18446744073709551615t");
}

#[test]
fn the_block_is_exported_in_its_order() {
    let mut backend = setup_backend();
    backend.insert("a".to_string(), 1, vec![0xff]).unwrap();
    backend.insert("b".to_string(), 2, vec![]).unwrap();
    backend.upsert("a".to_string(), 1, vec![0x00]).unwrap();
    assert_eq!(
        backend.export(),
        vec![("1a".to_string(), "AA==".to_string()), ("2b".to_string(), String::new())]
    );
}

#[test]
fn batch_get_answers_for_every_key_and_never_fails() {
    let mut backend = setup_backend();
    assert_eq!(backend.batch_get("t".to_string(), vec![]), Ok(vec![]));
    assert_eq!(backend.batch_get("t".to_string(), vec![5, 5]), Ok(vec![None, None]));
    backend.insert("t".to_string(), 5, vec![9]).unwrap();
    assert_eq!(
        backend.batch_get("t".to_string(), vec![5, 6, 5]),
        Ok(vec![Some(vec![9]), None, Some(vec![9])])
    );
    assert_eq!(backend.batch_get("u".to_string(), vec![5]), Ok(vec![None]));
}
