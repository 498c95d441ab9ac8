use world_storage::endian::{
    get_u32, get_u64, i32_bits, i32_from_bits, i64_bits, i64_from_bits, put_u32, put_u64,
    put_u64_be,
};
use world_storage::text::{is_blank, is_word, normalize};

#[test]
fn integers_are_written_lowest_byte_first() {
    let mut out = vec![0xaa];
    put_u32(&mut out, 0x0102_0304);
    put_u64(&mut out, 0x0102_0304_0506_0708);
    assert_eq!(out, vec![0xaa, 4, 3, 2, 1, 8, 7, 6, 5, 4, 3, 2, 1]);
    assert_eq!(get_u32(&out, 1), 0x0102_0304);
    assert_eq!(get_u64(&out, 5), 0x0102_0304_0506_0708);
}

#[test]
fn integers_are_read_as_the_standard_library_reads_them() {
    for v in [0u64, 1, 255, 256, 0xdead_beef, u64::MAX, 1 << 63] {
        let mut out = Vec::new();
        put_u64(&mut out, v);
        assert_eq!(out, v.to_le_bytes().to_vec());
        assert_eq!(get_u64(&out, 0), v);
        let mut out = Vec::new();
        put_u64_be(&mut out, v);
        assert_eq!(out, v.to_be_bytes().to_vec());
    }
    for v in [0u32, 1, 0xffff, 0x1_0000, u32::MAX] {
        let mut out = Vec::new();
        put_u32(&mut out, v);
        assert_eq!(out, v.to_le_bytes().to_vec());
        assert_eq!(get_u32(&out, 0), v);
    }
}

#[test]
fn signed_integers_keep_their_bits() {
    assert_eq!(i32_bits(-1), u32::MAX);
    assert_eq!(i32_bits(i32::MIN), 0x8000_0000);
    assert_eq!(i32_bits(7), 7);
    assert_eq!(i32_from_bits(0xffff_fff9), -7);
    assert_eq!(i64_bits(-1), u64::MAX);
    assert_eq!(i64_bits(i64::MIN), 1 << 63);
    assert_eq!(i64_from_bits(u64::MAX - 6), -7);
    for v in [i64::MIN, -1, 0, 1, i64::MAX] {
        assert_eq!(i64_from_bits(i64_bits(v)), v);
    }
}

#[test]
fn names_are_normalized_by_trimming_and_lower_case() {
    assert_eq!(normalize("  ZsTd\t\n"), "zstd");
    assert_eq!(normalize("redb"), "redb");
    assert_eq!(normalize("   "), "");
    assert!(is_word("zstd", "zstd"));
    assert!(!is_word("zstd", "zstd "));
    assert!(is_blank(""));
    assert!(!is_blank(" "));
}
