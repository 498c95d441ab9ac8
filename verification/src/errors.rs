//! The errors of the storage layer and of the world built on it.

use vstd::prelude::*;
use vstd::string::StringExecFns;

verus! {

/// What a key-value backend reports.
#[derive(Debug, Clone, PartialEq, Eq)]
pub enum StorageError {
    /// No database directory was given.
    InvalidPath,
    /// The database could not be created or opened.
    DatabaseInitError(String),
    /// A strict insert found the key already there.
    KeyExists(u64),
    /// An update or a strict delete found no such key.
    KeyNotFound(u64),
    /// A write did not go through.
    WriteError(String),
    /// A read did not go through.
    ReadError(String),
    /// A transaction could not be committed.
    CommitError(String),
    /// Pending writes could not be made durable.
    FlushError(String),
    /// The database could not be closed.
    CloseError(String),
    /// A table could not be declared.
    TableError(String),
    /// The engine found the operation in conflict with another one.
    Conflict(String),
    /// Bytes could not be compressed.
    CompressionError(String),
    /// Stored bytes could not be decompressed.
    DecompressionError(String),
}

/// Which step of reading a record back found it damaged.
#[derive(Debug, Clone, Copy, PartialEq, Eq, Structural)]
pub enum Damage {
    /// The stored bytes are not a compressed stream of the configured kind.
    Compressed,
    /// The decompressed bytes are not the encoding of a chunk.
    Encoded,
}

/// What the world façade and the chunk cache report.
#[derive(Debug, Clone, PartialEq, Eq)]
pub enum WorldError {
    /// The configured backend is empty or not one of the known names.
    InvalidBackend(String),
    /// The configured database path cannot serve as a directory.
    InvalidWorldPath(String),
    /// The configured compressor is empty or not one of the known names.
    InvalidCompressor(String),
    /// The configured import path is empty.
    InvalidImportPath(String),
    /// The database was written under another compressor, backend or chunk
    /// format than the one configured now.
    MetadataMismatch,
    /// The metadata record of the database cannot be decoded.
    MetadataUnreadable,
    /// No chunk is stored under the coordinates asked for.
    ChunkNotFound,
    /// The record stored for one chunk is damaged.
    Corruption(Damage),
    /// The backend failed.
    Storage(StorageError),
}

/// What the plugin host reports.
#[derive(Debug, Clone, PartialEq, Eq)]
pub enum PluginsError {
    /// The virtual machine could not be found, started or attached to.
    JVMError(String),
    /// The archive named first could not be processed, for the reason named
    /// second.
    JarError(String, String),
}

/// What a plugin error says, as text.
pub open spec fn plugin_message(e: PluginsError) -> Seq<char> {
    match e {
        PluginsError::JVMError(detail) => "Something went wrong with the JVM: "@ + detail@,
        PluginsError::JarError(name, detail) => "Something went wrong with processing "@ + name@
            + "'s .jar file: "@ + detail@,
    }
}

impl PluginsError {
    /// What the error says, as text.
    pub fn message(&self) -> (r: String)
        ensures
            r@ == plugin_message(*self),
    {
        match self {
            PluginsError::JVMError(detail) => {
                let mut text = String::from_str("Something went wrong with the JVM: ");
                text.append(detail.as_str());
                text
            },
            PluginsError::JarError(name, detail) => {
                let mut text = String::from_str("Something went wrong with processing ");
                text.append(name.as_str());
                text.append("'s .jar file: ");
                text.append(detail.as_str());
                text
            },
        }
    }
}

} // verus!
