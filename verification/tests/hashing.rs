use world_storage::hashing::{hash, KeyHasher};

#[test]
fn digest_of_origin_is_fixed() {
    assert_eq!(hash(0, 0), 0xa8c7_f832_281a_39c5);
}

#[test]
fn digest_of_other_columns_is_fixed() {
    assert_eq!(hash(5, -7), 0xa2eb_7108_f623_c7e2);
    assert_eq!(hash(10, 10), 0x9ec9_0639_3759_c165);
    assert_eq!(hash(-1, -1), 0x8cf5_1a8b_fca3_883d);
}

#[test]
fn digest_depends_on_order_of_coordinates() {
    assert_ne!(hash(1, 2), hash(2, 1));
}

#[test]
fn digest_is_the_same_on_every_call() {
    for x in -3..3 {
        for z in -3..3 {
            assert_eq!(hash(x, z), hash(x, z));
        }
    }
}

#[test]
fn hasher_without_input_returns_offset() {
    assert_eq!(KeyHasher::new().finish(), 0xcbf2_9ce4_8422_2325);
}

#[test]
fn hasher_feeds_integers_little_endian() {
    let mut by_parts = KeyHasher::new();
    by_parts.write_i32(5);
    by_parts.write_i32(-7);
    let mut by_bytes = KeyHasher::new();
    by_bytes.write_raw(&[5, 0, 0, 0, 0xf9, 0xff, 0xff, 0xff]);
    assert_eq!(by_parts.finish(), by_bytes.finish());
    assert_eq!(by_parts.finish(), hash(5, -7));
}

#[test]
fn hasher_prefixes_byte_strings_with_their_length() {
    let mut with_length = KeyHasher::new();
    with_length.write_bytes(b"ab");
    let mut spelled = KeyHasher::new();
    spelled.write_u64(2);
    spelled.write_raw(b"ab");
    assert_eq!(with_length.finish(), spelled.finish());
    let mut first = KeyHasher::new();
    first.write_bytes(b"a");
    first.write_bytes(b"bc");
    let mut second = KeyHasher::new();
    second.write_bytes(b"ab");
    second.write_bytes(b"c");
    assert_ne!(first.finish(), second.finish());
}

#[test]
fn hasher_of_one_byte_is_one_round() {
    let mut hasher = KeyHasher::new();
    hasher.write_u8(0x61);
    assert_eq!(hasher.finish(), 0xaf63_dc4c_8601_ec8c);
}
