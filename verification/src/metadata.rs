//! The metadata record of a database and the check made on it at startup.
//!
//! The bytes of every stored chunk depend on the compressor, on the backend
//! and on the layout of the chunk record. A database is therefore opened
//! only under the three it was created under.

use vstd::prelude::*;
use vstd::utf8::encode_utf8;
use crate::codec::wire::Wire;
use crate::errors::WorldError;
use crate::hashing::{fnv_fold, KeyHasher, FNV_OFFSET};

verus! {

/// What a database was created under.
#[derive(Debug, Clone, PartialEq, Eq)]
pub struct DBMetadata {
    /// The name of the compression format.
    pub compressor: String,
    /// The name of the storage engine.
    pub backend: String,
    /// The digest of the chunk layout.
    pub world_format: u64,
}

/// The model of a [`DBMetadata`] record.
pub struct DBMetadataView {
    pub compressor: Seq<char>,
    pub backend: Seq<char>,
    pub world_format: u64,
}

impl DeepView for DBMetadata {
    type V = DBMetadataView;

    open spec fn deep_view(&self) -> DBMetadataView {
        DBMetadataView {
            compressor: self.compressor@,
            backend: self.backend@,
            world_format: self.world_format,
        }
    }
}

impl View for DBMetadata {
    type V = DBMetadataView;

    open spec fn view(&self) -> DBMetadataView {
        self.deep_view()
    }
}

/// The fields of a metadata record, in wire order.
pub open spec fn metadata_fields(v: DBMetadataView) -> (Seq<char>, (Seq<char>, u64)) {
    (v.compressor, (v.backend, v.world_format))
}

impl Wire for DBMetadata {
    open spec fn fits(v: DBMetadataView) -> bool {
        <(String, (String, u64))>::fits(metadata_fields(v))
    }

    open spec fn wire(v: DBMetadataView) -> Seq<u8> {
        <(String, (String, u64))>::wire(metadata_fields(v))
    }

    open spec fn parse(input: Seq<u8>) -> Option<(DBMetadataView, nat)> {
        match <(String, (String, u64))>::parse(input) {
            Some((fields, taken)) => Some(
                (
                    DBMetadataView {
                        compressor: fields.0,
                        backend: fields.1.0,
                        world_format: fields.1.1,
                    },
                    taken,
                ),
            ),
            None => None,
        }
    }

    proof fn lemma_parse_wire(v: DBMetadataView, rest: Seq<u8>) {
        <(String, (String, u64))>::lemma_parse_wire(metadata_fields(v), rest);
    }

    proof fn lemma_wire_parse(input: Seq<u8>) {
        <(String, (String, u64))>::lemma_wire_parse(input);
    }

    fn encode(&self, out: &mut Vec<u8>) {
        self.compressor.encode(out);
        self.backend.encode(out);
        self.world_format.encode(out);
        assert(out@ =~= old(out)@ + Self::wire(self.deep_view()));
    }

    fn decode(input: &[u8], start: usize) -> (r: Option<(Self, usize)>) {
        match <(String, (String, u64))>::decode(input, start) {
            Some(((compressor, (backend, world_format)), end)) => Some(
                (DBMetadata { compressor, backend, world_format }, end),
            ),
            None => None,
        }
    }
}

/// The layout of the chunk record, field by field in wire order. Any change
/// to the record changes this text and with it the format digest.
pub open spec fn chunk_schema() -> Seq<char> {
    "chunk{dimension:text,x:i32,z:i32,y_pos:i32,sections:option<seq<section{y:i8,block_states:option<{data:option<seq<i64>>,palette:seq<{name:text}>}>,biomes:option<{palette:seq<text>}>,block_light:option<seq<u8>>,sky_light:option<seq<u8>>}>>,heightmaps:{motion_blocking:option<seq<i64>>,world_surface:option<seq<i64>>},status:text,data_version:i32,last_update:option<i64>,inhabited_time:option<i64>,is_light_on:option<bool>}"@
}

/// The digest of the chunk layout: that of the bytes of [`chunk_schema`].
pub open spec fn format_digest() -> u64 {
    fnv_fold(FNV_OFFSET, encode_utf8(chunk_schema()))
}

/// The digest of the chunk layout that this build reads and writes.
pub fn world_format() -> (r: u64)
    ensures
        r == format_digest(),
{
    let schema: &str =
        "chunk{dimension:text,x:i32,z:i32,y_pos:i32,sections:option<seq<section{y:i8,block_states:option<{data:option<seq<i64>>,palette:seq<{name:text}>}>,biomes:option<{palette:seq<text>}>,block_light:option<seq<u8>>,sky_light:option<seq<u8>>}>>,heightmaps:{motion_blocking:option<seq<i64>>,world_surface:option<seq<i64>>},status:text,data_version:i32,last_update:option<i64>,inhabited_time:option<i64>,is_light_on:option<bool>}";
    let mut hasher = KeyHasher::new();
    hasher.write_raw(schema.as_bytes());
    hasher.finish()
}

/// The bytes of the metadata file for `m`.
pub open spec fn metadata_encoding(m: DBMetadataView) -> Seq<u8> {
    DBMetadata::wire(m)
}

/// The record that `bytes` are the metadata file of, if they are one.
pub open spec fn metadata_decoding(bytes: Seq<u8>) -> Option<DBMetadataView> {
    match DBMetadata::parse(bytes) {
        Some((m, taken)) => if taken == bytes.len() {
            Some(m)
        } else {
            None
        },
        None => None,
    }
}

/// What the startup check lets happen.
#[derive(Debug, Clone, PartialEq, Eq)]
pub enum Gate {
    /// The database exists and was created under the current record.
    Verified,
    /// The database is new: these bytes are to be written as its metadata
    /// file, once.
    Fresh(Vec<u8>),
}

/// The model of a [`Gate`].
pub enum GateView {
    Verified,
    Fresh(Seq<u8>),
}

impl DeepView for Gate {
    type V = GateView;

    open spec fn deep_view(&self) -> GateView {
        match self {
            Gate::Verified => GateView::Verified,
            Gate::Fresh(bytes) => GateView::Fresh(bytes@),
        }
    }
}

impl View for Gate {
    type V = GateView;

    open spec fn view(&self) -> GateView {
        self.deep_view()
    }
}

/// What the startup check decides on the metadata file found (`None` where there is
/// none) under the record `current`.
pub open spec fn gate_verdict(stored: Option<Seq<u8>>, current: DBMetadataView) -> Result<
    GateView,
    WorldError,
> {
    match stored {
        None => Ok(GateView::Fresh(metadata_encoding(current))),
        Some(bytes) => match metadata_decoding(bytes) {
            None => Err(WorldError::MetadataUnreadable),
            Some(found) => if found == current {
                Ok(GateView::Verified)
            } else {
                Err(WorldError::MetadataMismatch)
            },
        },
    }
}

/// The bytes of the metadata file for `metadata`.
pub fn encode_metadata(metadata: &DBMetadata) -> (bytes: Vec<u8>)
    ensures
        DBMetadata::fits(metadata@),
        bytes@ == metadata_encoding(metadata@),
{
    let mut out: Vec<u8> = Vec::new();
    metadata.encode(&mut out);
    assert(out@ =~= metadata_encoding(metadata@));
    out
}

/// The record that `bytes` are the metadata file of; `None` where they are
/// none.
pub fn decode_metadata(bytes: &[u8]) -> (r: Option<DBMetadata>)
    ensures
        r.deep_view() == metadata_decoding(bytes@),
{
    proof {
        assert(bytes@.skip(0) =~= bytes@);
    }
    match DBMetadata::decode(bytes, 0) {
        Some((metadata, end)) => if end == bytes.len() {
            Some(metadata)
        } else {
            None
        },
        None => None,
    }
}

/// Decides whether a database may be opened under `current`, given the
/// metadata file found in its directory.
pub fn check_metadata(stored: Option<&[u8]>, current: &DBMetadata) -> (r: Result<Gate, WorldError>)
    ensures
        match r {
            Ok(gate) => gate_verdict(stored.deep_view(), current@) == Ok::<GateView, WorldError>(
                gate@,
            ),
            Err(e) => gate_verdict(stored.deep_view(), current@) == Err::<GateView, WorldError>(e),
        },
{
    match stored {
        None => Ok(Gate::Fresh(encode_metadata(current))),
        Some(bytes) => {
            assert(stored.deep_view() == Some(bytes@)) by {
                assert(bytes.deep_view() =~= bytes@);
            }
            match decode_metadata(bytes) {
                None => Err(WorldError::MetadataUnreadable),
                Some(found) => {
                    if found.compressor == current.compressor && found.backend == current.backend
                        && found.world_format == current.world_format {
                        Ok(Gate::Verified)
                    } else {
                        Err(WorldError::MetadataMismatch)
                    }
                },
            }
        },
    }
}

/// A database reopens under the record it was created under.
pub proof fn lemma_gate_admits_same(written: DBMetadataView)
    requires
        DBMetadata::fits(written),
    ensures
        gate_verdict(Some(metadata_encoding(written)), written) == Ok::<GateView, WorldError>(
            GateView::Verified,
        ),
{
    DBMetadata::lemma_parse_wire(written, Seq::empty());
    assert(metadata_encoding(written) + Seq::<u8>::empty() =~= metadata_encoding(written));
}

/// A database created under one record does not open under another: a
/// change of the compressor, of the backend or of the chunk layout is a
/// mismatch.
pub proof fn lemma_gate_rejects_change(written: DBMetadataView, current: DBMetadataView)
    requires
        DBMetadata::fits(written),
        written.compressor != current.compressor || written.backend != current.backend
            || written.world_format != current.world_format,
    ensures
        gate_verdict(Some(metadata_encoding(written)), current) == Err::<GateView, WorldError>(
            WorldError::MetadataMismatch,
        ),
{
    DBMetadata::lemma_parse_wire(written, Seq::empty());
    assert(metadata_encoding(written) + Seq::<u8>::empty() =~= metadata_encoding(written));
}

} // verus!
