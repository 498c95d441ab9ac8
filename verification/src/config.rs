//! The database section of the configuration and the checks made on it
//! before a world is opened.

use vstd::prelude::*;
use crate::compressors::CompressorType;
use crate::errors::WorldError;
use crate::text::{is_blank, is_word, normal_form, normalize};

verus! {

/// The database options of the configuration.
#[derive(Debug, Clone, PartialEq, Eq)]
pub struct DatabaseConfig {
    /// The name of the storage engine.
    pub backend: String,
    /// The directory of the database.
    pub db_path: String,
    /// The name of the compression format.
    pub compression: String,
    /// The level handed to the compressor.
    pub compression_level: u32,
    /// The directory that worlds are imported from.
    pub import_path: String,
}

/// The storage engines a world can be opened on.
#[derive(Debug, Clone, Copy, PartialEq, Eq, Structural)]
pub enum BackendKind {
    SurrealKV,
    Sled,
    RocksDB,
    Redb,
}

/// What the caller found at the database path: whether it was there,
/// whether creating it worked where it was not, whether it is a file, and
/// whether its entries can be listed.
#[derive(Debug, Clone, Copy, PartialEq, Eq, Structural)]
pub struct PathReport {
    pub existed: bool,
    pub created: bool,
    pub is_file: bool,
    pub listable: bool,
}

/// The engine that goes by the name `normal`, a name in normal form.
pub open spec fn backend_of_name(normal: Seq<char>) -> Option<BackendKind> {
    if normal == "surrealkv"@ {
        Some(BackendKind::SurrealKV)
    } else if normal == "sled"@ {
        Some(BackendKind::Sled)
    } else if normal == "rocksdb"@ {
        Some(BackendKind::RocksDB)
    } else if normal == "redb"@ {
        Some(BackendKind::Redb)
    } else {
        None
    }
}

/// The format that goes by the name `normal`, a name in normal form.
pub open spec fn compressor_of_name(normal: Seq<char>) -> Option<CompressorType> {
    if normal == "zstd"@ {
        Some(CompressorType::Zstd)
    } else if normal == "brotli"@ {
        Some(CompressorType::Brotli)
    } else if normal == "deflate"@ {
        Some(CompressorType::Deflate)
    } else if normal == "gzip"@ {
        Some(CompressorType::Gzip)
    } else if normal == "zlib"@ {
        Some(CompressorType::Zlib)
    } else {
        None
    }
}

/// The name of an engine, as the metadata record holds it.
pub open spec fn backend_name(kind: BackendKind) -> Seq<char> {
    match kind {
        BackendKind::SurrealKV => "surrealkv"@,
        BackendKind::Sled => "sled"@,
        BackendKind::RocksDB => "rocksdb"@,
        BackendKind::Redb => "redb"@,
    }
}

/// The name of a format, as the metadata record holds it.
pub open spec fn compressor_name(kind: CompressorType) -> Seq<char> {
    match kind {
        CompressorType::Zstd => "zstd"@,
        CompressorType::Brotli => "brotli"@,
        CompressorType::Deflate => "deflate"@,
        CompressorType::Gzip => "gzip"@,
        CompressorType::Zlib => "zlib"@,
    }
}

/// What the checks on a configuration come to, given what was found at the
/// database path. The checks are made in this order and the first that
/// fails decides.
pub open spec fn config_verdict(config: DatabaseConfig, path: PathReport) -> Result<
    (),
    WorldError,
> {
    if config.backend@.len() == 0 {
        Err(WorldError::InvalidBackend(config.backend))
    } else if !path.existed && !path.created {
        Err(WorldError::InvalidWorldPath(config.db_path))
    } else if path.is_file {
        Err(WorldError::InvalidWorldPath(config.db_path))
    } else if !path.listable {
        Err(WorldError::InvalidWorldPath(config.db_path))
    } else if config.compression@.len() == 0 {
        Err(WorldError::InvalidCompressor(config.compression))
    } else if config.import_path@.len() == 0 {
        Err(WorldError::InvalidImportPath(config.import_path))
    } else {
        Ok(())
    }
}

impl BackendKind {
    /// The engine that goes by `normal`, a name already trimmed and in
    /// lower case.
    pub fn from_name(normal: &str) -> (r: Option<BackendKind>)
        ensures
            r == backend_of_name(normal@),
    {
        if is_word(normal, "surrealkv") {
            Some(BackendKind::SurrealKV)
        } else if is_word(normal, "sled") {
            Some(BackendKind::Sled)
        } else if is_word(normal, "rocksdb") {
            Some(BackendKind::RocksDB)
        } else if is_word(normal, "redb") {
            Some(BackendKind::Redb)
        } else {
            None
        }
    }

    /// The engine that the configured name stands for, white space around
    /// it and the case of its letters aside.
    pub fn parse(name: &str) -> (r: Option<BackendKind>)
        ensures
            r == backend_of_name(normal_form(name@)),
    {
        let normal = normalize(name);
        BackendKind::from_name(normal.as_str())
    }

    /// The name of this engine.
    pub fn name(&self) -> (r: &'static str)
        ensures
            r@ == backend_name(*self),
    {
        match self {
            BackendKind::SurrealKV => "surrealkv",
            BackendKind::Sled => "sled",
            BackendKind::RocksDB => "rocksdb",
            BackendKind::Redb => "redb",
        }
    }
}

impl CompressorType {
    /// The format that goes by `normal`, a name already trimmed and in
    /// lower case.
    pub fn from_name(normal: &str) -> (r: Option<CompressorType>)
        ensures
            r == compressor_of_name(normal@),
    {
        if is_word(normal, "zstd") {
            Some(CompressorType::Zstd)
        } else if is_word(normal, "brotli") {
            Some(CompressorType::Brotli)
        } else if is_word(normal, "deflate") {
            Some(CompressorType::Deflate)
        } else if is_word(normal, "gzip") {
            Some(CompressorType::Gzip)
        } else if is_word(normal, "zlib") {
            Some(CompressorType::Zlib)
        } else {
            None
        }
    }

    /// The format that the configured name stands for, white space around
    /// it and the case of its letters aside.
    pub fn parse(name: &str) -> (r: Option<CompressorType>)
        ensures
            r == compressor_of_name(normal_form(name@)),
    {
        let normal = normalize(name);
        CompressorType::from_name(normal.as_str())
    }

    /// The name of this format.
    pub fn name(&self) -> (r: &'static str)
        ensures
            r@ == compressor_name(*self),
    {
        match self {
            CompressorType::Zstd => "zstd",
            CompressorType::Brotli => "brotli",
            CompressorType::Deflate => "deflate",
            CompressorType::Gzip => "gzip",
            CompressorType::Zlib => "zlib",
        }
    }
}

/// Whether the database path has to be looked at before the configuration
/// can be judged: not where the backend name is empty, which is reported
/// before the path is touched.
pub fn needs_path_report(config: &DatabaseConfig) -> (r: bool)
    ensures
        r == (config.backend@.len() != 0),
{
    !is_blank(config.backend.as_str())
}

/// Checks a configuration against what was found at the database path.
/// Whether the import path exists is not checked here: a world that was
/// imported and then removed must not stop a server from starting.
pub fn check_config_validity(config: &DatabaseConfig, path: PathReport) -> (r: Result<
    (),
    WorldError,
>)
    ensures
        r == config_verdict(*config, path),
{
    if is_blank(config.backend.as_str()) {
        return Err(WorldError::InvalidBackend(config.backend.clone()));
    }
    if !path.existed && !path.created {
        return Err(WorldError::InvalidWorldPath(config.db_path.clone()));
    }
    if path.is_file {
        return Err(WorldError::InvalidWorldPath(config.db_path.clone()));
    }
    if !path.listable {
        return Err(WorldError::InvalidWorldPath(config.db_path.clone()));
    }
    if is_blank(config.compression.as_str()) {
        return Err(WorldError::InvalidCompressor(config.compression.clone()));
    }
    if is_blank(config.import_path.as_str()) {
        return Err(WorldError::InvalidImportPath(config.import_path.clone()));
    }
    Ok(())
}

} // verus!
