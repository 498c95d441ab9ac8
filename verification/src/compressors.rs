//! Lossless compression of records, in one of five stream formats.
//!
//! The formats themselves are the work of the `zstd`, `brotli` and `flate2`
//! crates. This module picks the format, keeps the level within what each
//! format knows, and states the one thing the rest of the crate relies on:
//! what a compressor packed, it unpacks to the same bytes.

use std::io::Read;
use vstd::prelude::*;
use crate::errors::StorageError;

verus! {

/// The stream format of a compressor.
#[derive(Debug, Clone, Copy, PartialEq, Eq, Structural)]
pub enum CompressorType {
    Zstd,
    Brotli,
    Deflate,
    Gzip,
    Zlib,
}

/// What `zstd::stream::decode_all` returns on `packed`: the bytes it
/// decodes, or `None` where it reports an error.
pub uninterp spec fn zstd_unpacked(packed: Seq<u8>) -> Option<Seq<u8>>;

/// What `brotli::BrotliDecompress` writes on `packed`: the bytes it decodes,
/// or `None` where it reports an error.
pub uninterp spec fn brotli_unpacked(packed: Seq<u8>) -> Option<Seq<u8>>;

/// What a `flate2::read::DeflateDecoder` on `packed` reads to its end: the
/// bytes it decodes, or `None` where it reports an error.
pub uninterp spec fn deflate_unpacked(packed: Seq<u8>) -> Option<Seq<u8>>;

/// What a `flate2::read::GzDecoder` on `packed` reads to its end: the bytes
/// it decodes, or `None` where it reports an error.
pub uninterp spec fn gzip_unpacked(packed: Seq<u8>) -> Option<Seq<u8>>;

/// What a `flate2::read::ZlibDecoder` on `packed` reads to its end: the
/// bytes it decodes, or `None` where it reports an error.
pub uninterp spec fn zlib_unpacked(packed: Seq<u8>) -> Option<Seq<u8>>;

/// Whether `zstd::stream::encode_all` returns a frame for `data` at `level`,
/// and no error.
pub uninterp spec fn zstd_packs(data: Seq<u8>, level: u32) -> bool;

/// Whether `brotli::BrotliCompress` writes a stream for `data` at quality
/// `level`, and returns no error.
pub uninterp spec fn brotli_packs(data: Seq<u8>, level: u32) -> bool;

/// Whether a `flate2::read::DeflateEncoder` on `data` at `level` is read to
/// its end without an error.
pub uninterp spec fn deflate_packs(data: Seq<u8>, level: u32) -> bool;

/// Whether a `flate2::read::GzEncoder` on `data` at `level` is read to its
/// end without an error.
pub uninterp spec fn gzip_packs(data: Seq<u8>, level: u32) -> bool;

/// Whether a `flate2::read::ZlibEncoder` on `data` at `level` is read to its
/// end without an error.
pub uninterp spec fn zlib_packs(data: Seq<u8>, level: u32) -> bool;

/// Whether the encoder of the format `kind` packs `data` at `level`, and
/// reports no error.
pub open spec fn packs(kind: CompressorType, level: u32, data: Seq<u8>) -> bool {
    match kind {
        CompressorType::Zstd => zstd_packs(data, level),
        CompressorType::Brotli => brotli_packs(data, level),
        CompressorType::Deflate => deflate_packs(data, level),
        CompressorType::Gzip => gzip_packs(data, level),
        CompressorType::Zlib => zlib_packs(data, level),
    }
}

/// The bytes that `packed` stands for in the format `kind`, or `None` where
/// it is no stream of that format.
pub open spec fn unpacked(kind: CompressorType, packed: Seq<u8>) -> Option<Seq<u8>> {
    match kind {
        CompressorType::Zstd => zstd_unpacked(packed),
        CompressorType::Brotli => brotli_unpacked(packed),
        CompressorType::Deflate => deflate_unpacked(packed),
        CompressorType::Gzip => gzip_unpacked(packed),
        CompressorType::Zlib => zlib_unpacked(packed),
    }
}

/// The highest level that the format `kind` knows.
pub open spec fn max_level(kind: CompressorType) -> u32 {
    match kind {
        CompressorType::Zstd => 22,
        CompressorType::Brotli => 11,
        CompressorType::Deflate => 9,
        CompressorType::Gzip => 9,
        CompressorType::Zlib => 9,
    }
}

/// The level a compressor of format `kind` works at when `level` is asked
/// for: `level`, but no more than the format knows.
pub open spec fn effective_level(kind: CompressorType, level: u32) -> u32 {
    if level > max_level(kind) {
        max_level(kind)
    } else {
        level
    }
}

/// `zstd::stream::encode_all` at `level`. Whether it returns a frame or an
/// error depends on `data` and `level` alone; the frame it returns is one
/// that `zstd::stream::decode_all` decodes to `data`.
#[verifier::external_body]
fn zstd_pack(data: &[u8], level: u32) -> (r: Result<Vec<u8>, String>)
    requires
        level <= 22,
    ensures
        r is Ok <==> zstd_packs(data@, level),
        r matches Ok(packed) ==> zstd_unpacked(packed@) == Some(data@),
{
    zstd::stream::encode_all(data, level as i32).map_err(|e| e.to_string())
}

/// `zstd::stream::decode_all`: the decoded bytes, or its error as text.
#[verifier::external_body]
fn zstd_unpack(packed: &[u8]) -> (r: Result<Vec<u8>, String>)
    ensures
        match r {
            Ok(plain) => zstd_unpacked(packed@) == Some(plain@),
            Err(_) => zstd_unpacked(packed@) is None,
        },
{
    zstd::stream::decode_all(packed).map_err(|e| e.to_string())
}

/// `brotli::BrotliCompress` at quality `level`, other parameters at their
/// defaults. Whether it writes a stream or returns an error depends on
/// `data` and `level` alone; the stream it writes is one that
/// `brotli::BrotliDecompress` decodes to `data`.
#[verifier::external_body]
fn brotli_pack(data: &[u8], level: u32) -> (r: Result<Vec<u8>, String>)
    requires
        level <= 11,
    ensures
        r is Ok <==> brotli_packs(data@, level),
        r matches Ok(packed) ==> brotli_unpacked(packed@) == Some(data@),
{
    let params = brotli::enc::BrotliEncoderParams { quality: level as i32, ..Default::default() };
    let mut source = data;
    let mut packed = Vec::new();
    brotli::BrotliCompress(&mut source, &mut packed, &params).map(|_| packed).map_err(
        |e| e.to_string(),
    )
}

/// `brotli::BrotliDecompress`: the decoded bytes, or its error as text.
#[verifier::external_body]
fn brotli_unpack(packed: &[u8]) -> (r: Result<Vec<u8>, String>)
    ensures
        match r {
            Ok(plain) => brotli_unpacked(packed@) == Some(plain@),
            Err(_) => brotli_unpacked(packed@) is None,
        },
{
    let mut source = packed;
    let mut plain = Vec::new();
    brotli::BrotliDecompress(&mut source, &mut plain).map(|_| plain).map_err(|e| e.to_string())
}

/// A `flate2::read::DeflateEncoder` at `level`, read to its end. Whether it
/// gives a stream or an error depends on `data` and `level` alone; the
/// stream is one that a `flate2::read::DeflateDecoder` decodes to `data`.
#[verifier::external_body]
fn deflate_pack(data: &[u8], level: u32) -> (r: Result<Vec<u8>, String>)
    requires
        level <= 9,
    ensures
        r is Ok <==> deflate_packs(data@, level),
        r matches Ok(packed) ==> deflate_unpacked(packed@) == Some(data@),
{
    let mut packed = Vec::new();
    flate2::read::DeflateEncoder::new(data, flate2::Compression::new(level))
        .read_to_end(&mut packed).map(|_| packed).map_err(|e| e.to_string())
}

/// A `flate2::read::DeflateDecoder` read to its end: the decoded bytes, or
/// its error as text.
#[verifier::external_body]
fn deflate_unpack(packed: &[u8]) -> (r: Result<Vec<u8>, String>)
    ensures
        match r {
            Ok(plain) => deflate_unpacked(packed@) == Some(plain@),
            Err(_) => deflate_unpacked(packed@) is None,
        },
{
    let mut plain = Vec::new();
    flate2::read::DeflateDecoder::new(packed).read_to_end(&mut plain).map(|_| plain).map_err(
        |e| e.to_string(),
    )
}

/// A `flate2::read::GzEncoder` at `level`, read to its end. Whether it
/// gives a member or an error depends on `data` and `level` alone; the
/// member is one that a `flate2::read::GzDecoder` decodes to `data`.
#[verifier::external_body]
fn gzip_pack(data: &[u8], level: u32) -> (r: Result<Vec<u8>, String>)
    requires
        level <= 9,
    ensures
        r is Ok <==> gzip_packs(data@, level),
        r matches Ok(packed) ==> gzip_unpacked(packed@) == Some(data@),
{
    let mut packed = Vec::new();
    flate2::read::GzEncoder::new(data, flate2::Compression::new(level))
        .read_to_end(&mut packed).map(|_| packed).map_err(|e| e.to_string())
}

/// A `flate2::read::GzDecoder` read to its end: the decoded bytes, or its
/// error as text.
#[verifier::external_body]
fn gzip_unpack(packed: &[u8]) -> (r: Result<Vec<u8>, String>)
    ensures
        match r {
            Ok(plain) => gzip_unpacked(packed@) == Some(plain@),
            Err(_) => gzip_unpacked(packed@) is None,
        },
{
    let mut plain = Vec::new();
    flate2::read::GzDecoder::new(packed).read_to_end(&mut plain).map(|_| plain).map_err(
        |e| e.to_string(),
    )
}

/// A `flate2::read::ZlibEncoder` at `level`, read to its end. Whether it
/// gives a stream or an error depends on `data` and `level` alone; the
/// stream is one that a `flate2::read::ZlibDecoder` decodes to `data`.
#[verifier::external_body]
fn zlib_pack(data: &[u8], level: u32) -> (r: Result<Vec<u8>, String>)
    requires
        level <= 9,
    ensures
        r is Ok <==> zlib_packs(data@, level),
        r matches Ok(packed) ==> zlib_unpacked(packed@) == Some(data@),
{
    let mut packed = Vec::new();
    flate2::read::ZlibEncoder::new(data, flate2::Compression::new(level))
        .read_to_end(&mut packed).map(|_| packed).map_err(|e| e.to_string())
}

/// A `flate2::read::ZlibDecoder` read to its end: the decoded bytes, or its
/// error as text.
#[verifier::external_body]
fn zlib_unpack(packed: &[u8]) -> (r: Result<Vec<u8>, String>)
    ensures
        match r {
            Ok(plain) => zlib_unpacked(packed@) == Some(plain@),
            Err(_) => zlib_unpacked(packed@) is None,
        },
{
    let mut plain = Vec::new();
    flate2::read::ZlibDecoder::new(packed).read_to_end(&mut plain).map(|_| plain).map_err(
        |e| e.to_string(),
    )
}

/// A compressor: a stream format and the level it works at. Both are fixed
/// when it is made.
#[derive(Debug, Clone, Copy, PartialEq, Eq)]
pub struct Compressor {
    kind: CompressorType,
    level: u32,
}

impl Compressor {
    /// The stream format.
    pub closed spec fn spec_kind(&self) -> CompressorType {
        self.kind
    }

    /// The level it works at.
    pub closed spec fn spec_level(&self) -> u32 {
        self.level
    }

    /// A compressor of format `kind` that works at `level`, or at the
    /// highest level the format knows where `level` is above it.
    pub fn create(kind: CompressorType, level: u32) -> (r: Self)
        ensures
            r.spec_kind() == kind,
            r.spec_level() == effective_level(kind, level),
    {
        let top: u32 = match kind {
            CompressorType::Zstd => 22,
            CompressorType::Brotli => 11,
            CompressorType::Deflate => 9,
            CompressorType::Gzip => 9,
            CompressorType::Zlib => 9,
        };
        Compressor {
            kind,
            level: if level > top {
                top
            } else {
                level
            },
        }
    }

    /// The stream format.
    #[verifier::when_used_as_spec(spec_kind)]
    pub fn kind(&self) -> (r: CompressorType)
        ensures
            r == self.spec_kind(),
    {
        self.kind
    }

    /// The level it works at.
    #[verifier::when_used_as_spec(spec_level)]
    pub fn level(&self) -> (r: u32)
        ensures
            r == self.spec_level(),
            r <= max_level(self.spec_kind()),
    {
        proof {
            use_type_invariant(self);
        }
        self.level
    }

    #[verifier::type_invariant]
    spec fn level_in_range(self) -> bool {
        self.level <= max_level(self.kind)
    }

    /// Packs `data`: it succeeds exactly where the encoder of this format
    /// packs `data` at this level. What comes back unpacks, in this
    /// compressor's format, to `data`; a failure of the encoder comes back
    /// as `CompressionError`.
    pub fn compress(&self, data: &[u8]) -> (r: Result<Vec<u8>, StorageError>)
        ensures
            r is Ok <==> packs(self.spec_kind(), self.spec_level(), data@),
            match r {
                Ok(packed) => unpacked(self.spec_kind(), packed@) == Some(data@),
                Err(e) => e is CompressionError,
            },
    {
        proof {
            use_type_invariant(self);
        }
        let packed = match self.kind {
            CompressorType::Zstd => zstd_pack(data, self.level),
            CompressorType::Brotli => brotli_pack(data, self.level),
            CompressorType::Deflate => deflate_pack(data, self.level),
            CompressorType::Gzip => gzip_pack(data, self.level),
            CompressorType::Zlib => zlib_pack(data, self.level),
        };
        match packed {
            Ok(bytes) => Ok(bytes),
            Err(message) => Err(StorageError::CompressionError(message)),
        }
    }

    /// Unpacks `packed`: the bytes it stands for in this compressor's
    /// format, and `DecompressionError` exactly where it stands for none.
    pub fn decompress(&self, packed: &[u8]) -> (r: Result<Vec<u8>, StorageError>)
        ensures
            match r {
                Ok(plain) => unpacked(self.spec_kind(), packed@) == Some(plain@),
                Err(e) => unpacked(self.spec_kind(), packed@) is None && e is DecompressionError,
            },
    {
        let plain = match self.kind {
            CompressorType::Zstd => zstd_unpack(packed),
            CompressorType::Brotli => brotli_unpack(packed),
            CompressorType::Deflate => deflate_unpack(packed),
            CompressorType::Gzip => gzip_unpack(packed),
            CompressorType::Zlib => zlib_unpack(packed),
        };
        match plain {
            Ok(bytes) => Ok(bytes),
            Err(message) => Err(StorageError::DecompressionError(message)),
        }
    }
}

} // verus!
