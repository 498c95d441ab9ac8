use world_storage::config::{
    check_config_validity, needs_path_report, BackendKind, DatabaseConfig, PathReport,
};
use world_storage::errors::{PluginsError, WorldError};
use world_storage::metadata::{
    check_metadata, decode_metadata, encode_metadata, world_format, DBMetadata, Gate,
};

fn good_config() -> DatabaseConfig {
    DatabaseConfig {
        backend: "redb".to_string(),
        db_path: "/tmp/w".to_string(),
        compression: "zstd".to_string(),
        compression_level: 3,
        import_path: "import".to_string(),
    }
}

fn good_path() -> PathReport {
    PathReport { existed: true, created: false, is_file: false, listable: true }
}

fn record() -> DBMetadata {
    DBMetadata {
        compressor: "zstd".to_string(),
        backend: "redb".to_string(),
        world_format: world_format(),
    }
}

#[test]
fn a_good_configuration_passes() {
    assert_eq!(check_config_validity(&good_config(), good_path()), Ok(()));
    let made = PathReport { existed: false, created: true, is_file: false, listable: true };
    assert_eq!(check_config_validity(&good_config(), made), Ok(()));
}

#[test]
fn an_empty_backend_is_reported_first() {
    let mut config = good_config();
    config.backend = String::new();
    config.compression = String::new();
    let nothing = PathReport { existed: false, created: false, is_file: false, listable: false };
    assert_eq!(
        check_config_validity(&config, nothing),
        Err(WorldError::InvalidBackend(String::new()))
    );
    assert!(!needs_path_report(&config));
    assert!(needs_path_report(&good_config()));
}

#[test]
fn a_path_that_cannot_serve_is_reported() {
    let missing = PathReport { existed: false, created: false, is_file: false, listable: false };
    let file = PathReport { existed: true, created: false, is_file: true, listable: false };
    let closed = PathReport { existed: true, created: false, is_file: false, listable: false };
    for path in [missing, file, closed] {
        assert_eq!(
            check_config_validity(&good_config(), path),
            Err(WorldError::InvalidWorldPath("/tmp/w".to_string()))
        );
    }
}

#[test]
fn the_path_is_judged_before_the_compressor() {
    let mut config = good_config();
    config.compression = String::new();
    let file = PathReport { existed: true, created: false, is_file: true, listable: false };
    assert_eq!(
        check_config_validity(&config, file),
        Err(WorldError::InvalidWorldPath("/tmp/w".to_string()))
    );
    assert_eq!(
        check_config_validity(&config, good_path()),
        Err(WorldError::InvalidCompressor(String::new()))
    );
}

#[test]
fn an_empty_import_path_is_reported_last() {
    let mut config = good_config();
    config.import_path = String::new();
    assert_eq!(
        check_config_validity(&config, good_path()),
        Err(WorldError::InvalidImportPath(String::new()))
    );
}

#[test]
fn backend_names_are_looked_up_trimmed_and_in_lower_case() {
    assert_eq!(BackendKind::parse("surrealkv"), Some(BackendKind::SurrealKV));
    assert_eq!(BackendKind::parse(" Sled"), Some(BackendKind::Sled));
    assert_eq!(BackendKind::parse("RocksDB"), Some(BackendKind::RocksDB));
    assert_eq!(BackendKind::parse("redb\n"), Some(BackendKind::Redb));
    assert_eq!(BackendKind::parse("lmdb"), None);
    assert_eq!(BackendKind::from_name("Redb"), None);
    assert_eq!(BackendKind::Redb.name(), "redb");
    assert_eq!(BackendKind::parse(BackendKind::SurrealKV.name()), Some(BackendKind::SurrealKV));
}

#[test]
fn metadata_has_the_expected_bytes() {
    let m = DBMetadata {
        compressor: "zstd".to_string(),
        backend: "redb".to_string(),
        world_format: 0x0102_0304_0506_0708,
    };
    assert_eq!(
        encode_metadata(&m),
        vec![4, b'z', b's', b't', b'd', 4, b'r', b'e', b'd', b'b', 8, 7, 6, 5, 4, 3, 2, 1]
    );
    assert_eq!(decode_metadata(&encode_metadata(&m)), Some(m));
}

#[test]
fn metadata_of_garbage_is_none() {
    assert_eq!(decode_metadata(&[]), None);
    assert_eq!(decode_metadata(&[4, b'z']), None);
    let mut bytes = encode_metadata(&record());
    bytes.push(0);
    assert_eq!(decode_metadata(&bytes), None);
}

#[test]
fn the_format_digest_is_fixed() {
    assert_eq!(world_format(), world_format());
    assert_eq!(world_format(), FORMAT);
}

const FORMAT: u64 = 0xc6136b9a28154693;

#[test]
fn a_new_database_gets_its_metadata_written() {
    assert_eq!(check_metadata(None, &record()), Ok(Gate::Fresh(encode_metadata(&record()))));
}

#[test]
fn an_unchanged_database_is_admitted() {
    let stored = encode_metadata(&record());
    assert_eq!(check_metadata(Some(&stored), &record()), Ok(Gate::Verified));
}

#[test]
fn any_changed_field_is_a_mismatch() {
    let stored = encode_metadata(&record());
    let mut other = record();
    other.compressor = "gzip".to_string();
    assert_eq!(check_metadata(Some(&stored), &other), Err(WorldError::MetadataMismatch));
    let mut other = record();
    other.backend = "sled".to_string();
    assert_eq!(check_metadata(Some(&stored), &other), Err(WorldError::MetadataMismatch));
    let mut other = record();
    other.world_format += 1;
    assert_eq!(check_metadata(Some(&stored), &other), Err(WorldError::MetadataMismatch));
}

#[test]
fn unreadable_metadata_is_reported() {
    assert_eq!(check_metadata(Some(&[9, 9]), &record()), Err(WorldError::MetadataUnreadable));
}

#[test]
fn plugin_errors_say_what_went_wrong() {
    let jvm = PluginsError::JVMError("Java not found in PATH".to_string());
    assert_eq!(jvm.message(), "Something went wrong with the JVM: Java not found in PATH");
    let jar = PluginsError::JarError("demo.jar".to_string(), "no manifest".to_string());
    assert_eq!(
        jar.message(),
        "Something went wrong with processing demo.jar's .jar file: no manifest"
    );
}
