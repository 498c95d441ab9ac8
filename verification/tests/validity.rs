use world_storage::chunk_format::{BlockStates, Chunk, Heightmaps, Palette, Section};
use world_storage::validity::width_of;

fn palette_of(entries: usize) -> Vec<Palette> {
    let mut palette = Vec::new();
    for i in 0..entries {
        palette.push(Palette { name: format!("block{}", i) });
    }
    palette
}

fn chunk_with(states: Option<BlockStates>) -> Chunk {
    Chunk {
        dimension: String::new(),
        x: 0,
        z: 0,
        y_pos: 0,
        sections: Some(vec![Section {
            y: 0,
            block_states: states,
            biomes: None,
            block_light: None,
            sky_light: None,
        }]),
        heightmaps: Heightmaps { motion_blocking: None, world_surface: None },
        status: String::new(),
        data_version: 0,
        last_update: None,
        inhabited_time: None,
        is_light_on: None,
    }
}

#[test]
fn indices_are_four_bits_wide_or_as_the_palette_needs() {
    assert_eq!(width_of(0), 4);
    assert_eq!(width_of(1), 4);
    assert_eq!(width_of(16), 4);
    assert_eq!(width_of(17), 5);
    assert_eq!(width_of(32), 5);
    assert_eq!(width_of(33), 6);
    assert_eq!(width_of(256), 8);
    assert_eq!(width_of(257), 9);
    assert_eq!(width_of(4096), 12);
}

fn one_word(word: u64, entries: usize) -> bool {
    BlockStates { data: Some(vec![word as i64]), palette: palette_of(entries) }.is_valid()
}

#[test]
fn a_word_is_checked_slot_by_slot() {
    // sixteen slots of four bits: 0..=15
    assert!(one_word(0xfedc_ba98_7654_3210, 16));
    assert!(!one_word(0xfedc_ba98_7654_3210, 15));
    assert!(one_word(0x0000_0000_0000_0002, 3));
    assert!(!one_word(0x3000_0000_0000_0000, 3));
    // twelve slots of five bits: the four bits on top are unused
    assert!(one_word(0xf000_0000_0000_0000, 17));
    assert!(one_word(0x0000_0000_0000_0010, 17));
    assert!(!one_word(0x0000_0000_0000_0011, 17));
    assert!(one_word(0x0800_0000_0000_0000, 17));
    assert!(!one_word(0x0880_0000_0000_0000, 17));
}

#[test]
fn data_without_a_palette_is_invalid() {
    let states = BlockStates { data: Some(vec![]), palette: vec![] };
    assert!(!states.is_valid());
    let states = BlockStates { data: None, palette: vec![] };
    assert!(states.is_valid());
}

#[test]
fn data_that_points_into_the_palette_is_valid() {
    let states = BlockStates { data: Some(vec![0x0000_0000_0000_0210, 0]), palette: palette_of(3) };
    assert!(states.is_valid());
    let states = BlockStates { data: Some(vec![0x0000_0000_0000_0310]), palette: palette_of(3) };
    assert!(!states.is_valid());
    let states = BlockStates { data: Some(vec![-1]), palette: palette_of(16) };
    assert!(states.is_valid());
    let states = BlockStates { data: Some(vec![-1]), palette: palette_of(15) };
    assert!(!states.is_valid());
}

#[test]
fn a_chunk_is_valid_where_all_its_sections_are() {
    assert!(chunk_with(None).is_valid());
    assert!(chunk_with(Some(BlockStates { data: Some(vec![1]), palette: palette_of(2) })).is_valid());
    assert!(!chunk_with(Some(BlockStates { data: Some(vec![2]), palette: palette_of(2) })).is_valid());
    let mut none = chunk_with(None);
    none.sections = None;
    assert!(none.is_valid());
}
