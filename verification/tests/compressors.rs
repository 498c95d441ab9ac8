use world_storage::compressors::{Compressor, CompressorType};
use world_storage::errors::StorageError;

fn all_kinds() -> Vec<CompressorType> {
    vec![
        CompressorType::Zstd,
        CompressorType::Brotli,
        CompressorType::Deflate,
        CompressorType::Gzip,
        CompressorType::Zlib,
    ]
}

fn sample() -> Vec<u8> {
    let mut data = Vec::new();
    for i in 0..4000u32 {
        data.push((i % 7) as u8);
    }
    data
}

#[test]
fn every_format_unpacks_what_it_packed() {
    for kind in all_kinds() {
        let compressor = Compressor::create(kind, 3);
        let packed = compressor.compress(&sample()).unwrap();
        assert_eq!(compressor.decompress(&packed).unwrap(), sample());
    }
}

#[test]
fn every_format_packs_the_empty_input() {
    for kind in all_kinds() {
        let compressor = Compressor::create(kind, 1);
        let packed = compressor.compress(&[]).unwrap();
        assert_eq!(compressor.decompress(&packed).unwrap(), Vec::<u8>::new());
    }
}

#[test]
fn packed_bytes_are_not_the_input() {
    for kind in all_kinds() {
        let compressor = Compressor::create(kind, 6);
        let packed = compressor.compress(&sample()).unwrap();
        assert!(packed.len() < sample().len());
        assert_ne!(packed, sample());
    }
}

#[test]
fn a_single_zero_byte_is_no_stream() {
    for kind in all_kinds() {
        let compressor = Compressor::create(kind, 3);
        assert!(matches!(
            compressor.decompress(&[0]),
            Err(StorageError::DecompressionError(_))
        ));
    }
}

#[test]
fn plain_text_is_no_stream() {
    for kind in all_kinds() {
        let compressor = Compressor::create(kind, 3);
        assert!(matches!(
            compressor.decompress(b"this was never compressed, not by anyone"),
            Err(StorageError::DecompressionError(_))
        ));
    }
}

#[test]
fn formats_do_not_read_each_other() {
    let zstd = Compressor::create(CompressorType::Zstd, 3);
    let gzip = Compressor::create(CompressorType::Gzip, 3);
    let packed = zstd.compress(&sample()).unwrap();
    assert!(gzip.decompress(&packed).is_err());
    let packed = gzip.compress(&sample()).unwrap();
    assert!(zstd.decompress(&packed).is_err());
}

#[test]
fn level_is_kept_within_what_the_format_knows() {
    assert_eq!(Compressor::create(CompressorType::Zstd, 3).level(), 3);
    assert_eq!(Compressor::create(CompressorType::Zstd, 22).level(), 22);
    assert_eq!(Compressor::create(CompressorType::Zstd, 23).level(), 22);
    assert_eq!(Compressor::create(CompressorType::Brotli, 100).level(), 11);
    assert_eq!(Compressor::create(CompressorType::Deflate, 10).level(), 9);
    assert_eq!(Compressor::create(CompressorType::Gzip, u32::MAX).level(), 9);
    assert_eq!(Compressor::create(CompressorType::Zlib, 0).level(), 0);
    assert_eq!(Compressor::create(CompressorType::Zlib, 9).kind(), CompressorType::Zlib);
}

#[test]
fn any_level_packs_and_unpacks() {
    for kind in all_kinds() {
        for level in [0u32, 1, 9, 11, 22, 1000] {
            let compressor = Compressor::create(kind, level);
            let packed = compressor.compress(b"level test level test level test").unwrap();
            assert_eq!(
                compressor.decompress(&packed).unwrap(),
                b"level test level test level test".to_vec()
            );
        }
    }
}

#[test]
fn names_are_looked_up_trimmed_and_in_lower_case() {
    assert_eq!(CompressorType::parse("zstd"), Some(CompressorType::Zstd));
    assert_eq!(CompressorType::parse("  Brotli\n"), Some(CompressorType::Brotli));
    assert_eq!(CompressorType::parse("DEFLATE"), Some(CompressorType::Deflate));
    assert_eq!(CompressorType::parse("gzip "), Some(CompressorType::Gzip));
    assert_eq!(CompressorType::parse("\tzlib"), Some(CompressorType::Zlib));
    assert_eq!(CompressorType::parse("lz4"), None);
    assert_eq!(CompressorType::parse(""), None);
    assert_eq!(CompressorType::from_name("Zstd"), None);
    assert_eq!(CompressorType::from_name("zstd"), Some(CompressorType::Zstd));
    for kind in all_kinds() {
        assert_eq!(CompressorType::parse(kind.name()), Some(kind));
    }
}
