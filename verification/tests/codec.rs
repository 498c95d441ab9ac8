use world_storage::chunk_format::{
    Biomes, BlockStates, Chunk, Heightmaps, Palette, Section,
};
use world_storage::codec::chunk::{decode, encode};
use world_storage::codec::varint::{get_varint, put_varint};

fn plain_chunk(x: i32, z: i32) -> Chunk {
    Chunk {
        dimension: String::new(),
        x,
        z,
        y_pos: 0,
        sections: Some(Vec::new()),
        heightmaps: Heightmaps { motion_blocking: None, world_surface: None },
        status: String::from("full"),
        data_version: 3953,
        last_update: None,
        inhabited_time: None,
        is_light_on: None,
    }
}

fn rich_chunk() -> Chunk {
    Chunk {
        dimension: String::from("overworld"),
        x: -12,
        z: 34,
        y_pos: -4,
        sections: Some(vec![
            Section {
                y: -4,
                block_states: Some(BlockStates {
                    data: Some(vec![0x0123_4567_89ab_cdef, -1, i64::MIN]),
                    palette: vec![
                        Palette { name: String::from("minecraft:air") },
                        Palette { name: String::from("minecraft:stone") },
                    ],
                }),
                biomes: Some(Biomes { palette: vec![String::from("minecraft:plains")] }),
                block_light: Some(vec![0, 255, 7]),
                sky_light: None,
            },
            Section {
                y: 19,
                block_states: None,
                biomes: None,
                block_light: None,
                sky_light: Some(vec![]),
            },
        ]),
        heightmaps: Heightmaps {
            motion_blocking: Some(vec![1, 2, 3]),
            world_surface: Some(vec![]),
        },
        status: String::from("minecraft:full \u{00e9}\u{4e16}\u{1f30d}"),
        data_version: i32::MAX,
        last_update: Some(-5),
        inhabited_time: Some(i64::MAX),
        is_light_on: Some(true),
    }
}

#[test]
fn plain_chunk_has_the_expected_bytes() {
    let expected: Vec<u8> = vec![
        0x00, // dimension: empty
        0, 0, 0, 0, // x
        0, 0, 0, 0, // z
        0, 0, 0, 0, // y_pos
        0x01, 0x00, // sections: present, none
        0x00, 0x00, // height maps: both absent
        0x04, b'f', b'u', b'l', b'l', // status
        0x71, 0x0f, 0x00, 0x00, // data version 3953
        0x00, 0x00, 0x00, // last update, inhabited time, light flag: absent
    ];
    assert_eq!(encode(&plain_chunk(0, 0)), expected);
}

#[test]
fn negative_coordinates_are_twos_complement_little_endian() {
    let bytes = encode(&plain_chunk(5, -7));
    assert_eq!(&bytes[1..5], &[5, 0, 0, 0]);
    assert_eq!(&bytes[5..9], &[0xf9, 0xff, 0xff, 0xff]);
}

#[test]
fn plain_chunk_round_trips() {
    let chunk = plain_chunk(0, 0);
    assert_eq!(decode(&encode(&chunk)), Some(chunk));
}

#[test]
fn rich_chunk_round_trips() {
    let chunk = rich_chunk();
    let bytes = encode(&chunk);
    assert_eq!(decode(&bytes), Some(chunk));
}

#[test]
fn absent_sections_differ_from_no_sections() {
    let mut chunk = plain_chunk(1, 1);
    chunk.sections = None;
    let bytes = encode(&chunk);
    assert_ne!(bytes, encode(&plain_chunk(1, 1)));
    assert_eq!(decode(&bytes), Some(chunk));
}

#[test]
fn every_truncation_is_rejected() {
    let bytes = encode(&rich_chunk());
    for cut in 0..bytes.len() {
        assert_eq!(decode(&bytes[..cut]), None);
    }
}

#[test]
fn trailing_bytes_are_rejected() {
    let mut bytes = encode(&plain_chunk(0, 0));
    bytes.push(0);
    assert_eq!(decode(&bytes), None);
}

#[test]
fn single_zero_byte_is_no_chunk() {
    assert_eq!(decode(&[0]), None);
    assert_eq!(decode(&[]), None);
}

#[test]
fn presence_byte_must_be_zero_or_one() {
    let mut bytes = encode(&plain_chunk(0, 0));
    let last = bytes.len() - 1;
    bytes[last] = 2;
    assert_eq!(decode(&bytes), None);
}

#[test]
fn flag_byte_must_be_zero_or_one() {
    let mut chunk = plain_chunk(0, 0);
    chunk.is_light_on = Some(false);
    let mut bytes = encode(&chunk);
    let last = bytes.len() - 1;
    assert_eq!(bytes[last], 0);
    bytes[last] = 1;
    chunk.is_light_on = Some(true);
    assert_eq!(decode(&bytes), Some(chunk));
    bytes[last] = 2;
    assert_eq!(decode(&bytes), None);
}

#[test]
fn text_must_be_utf8() {
    let mut bytes = encode(&plain_chunk(0, 0));
    // the first letter of the status
    assert_eq!(bytes[18], b'f');
    bytes[18] = 0xff;
    assert_eq!(decode(&bytes), None);
}

#[test]
fn decoded_bytes_encode_to_themselves() {
    let bytes = encode(&rich_chunk());
    let chunk = decode(&bytes).unwrap();
    assert_eq!(encode(&chunk), bytes);
}

#[test]
fn lengths_have_the_expected_bytes() {
    let cases: Vec<(u64, Vec<u8>)> = vec![
        (0, vec![0x00]),
        (1, vec![0x01]),
        (127, vec![0x7f]),
        (128, vec![0x80, 0x01]),
        (300, vec![0xac, 0x02]),
        (16383, vec![0xff, 0x7f]),
        (16384, vec![0x80, 0x80, 0x01]),
        (u64::MAX, vec![0xff, 0xff, 0xff, 0xff, 0xff, 0xff, 0xff, 0xff, 0xff, 0x01]),
    ];
    for (n, bytes) in cases {
        let mut out = Vec::new();
        put_varint(&mut out, n);
        assert_eq!(out, bytes);
        assert_eq!(get_varint(&bytes, 0), Some((n, bytes.len())));
    }
}

#[test]
fn lengths_are_read_where_they_stand() {
    let bytes = [9, 9, 0xac, 0x02, 9];
    assert_eq!(get_varint(&bytes, 2), Some((300, 4)));
    assert_eq!(get_varint(&bytes, 5), None);
}

#[test]
fn lengths_have_one_encoding_only() {
    assert_eq!(get_varint(&[0x80, 0x00], 0), None);
    assert_eq!(get_varint(&[0xac, 0x80, 0x00], 0), None);
}

#[test]
fn lengths_beyond_64_bits_are_rejected() {
    let too_big = [0xff, 0xff, 0xff, 0xff, 0xff, 0xff, 0xff, 0xff, 0xff, 0x02];
    assert_eq!(get_varint(&too_big, 0), None);
    let too_long = [0x80, 0x80, 0x80, 0x80, 0x80, 0x80, 0x80, 0x80, 0x80, 0x80, 0x01];
    assert_eq!(get_varint(&too_long, 0), None);
    assert_eq!(get_varint(&[0x80], 0), None);
}

#[test]
fn a_length_larger_than_the_input_is_rejected_at_once() {
    // dimension of a claimed length of 2^63 bytes
    let mut bytes = vec![0x80, 0x80, 0x80, 0x80, 0x80, 0x80, 0x80, 0x80, 0x80, 0x01];
    bytes.extend_from_slice(&[0; 32]);
    assert_eq!(decode(&bytes), None);
}

#[test]
fn clone_of_a_chunk_is_equal_and_separate() {
    let chunk = rich_chunk();
    let mut copy = chunk.clone();
    assert_eq!(copy, chunk);
    copy.status.push('!');
    assert_ne!(copy, chunk);
}
