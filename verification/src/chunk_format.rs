//! The chunk record: a column of the world, sixteen blocks square, with its
//! sections and metadata, and the mathematical model of each part.

use vstd::prelude::*;

verus! {

/// One named entry of a block palette.
#[derive(Debug, PartialEq, Eq)]
pub struct Palette {
    pub name: String,
}

/// The model of a [`Palette`] entry.
pub struct PaletteView {
    pub name: Seq<char>,
}

/// The blocks of a section: indices packed into 64-bit words, and the
/// palette the indices point into.
#[derive(Debug, PartialEq, Eq)]
pub struct BlockStates {
    pub data: Option<Vec<i64>>,
    pub palette: Vec<Palette>,
}

/// The model of [`BlockStates`].
pub struct BlockStatesView {
    pub data: Option<Seq<i64>>,
    pub palette: Seq<PaletteView>,
}

/// The biomes of a section, by name.
#[derive(Debug, PartialEq, Eq)]
pub struct Biomes {
    pub palette: Vec<String>,
}

/// The model of [`Biomes`].
pub struct BiomesView {
    pub palette: Seq<Seq<char>>,
}

/// The two height maps of a chunk, each packed into 64-bit words.
#[derive(Debug, PartialEq, Eq)]
pub struct Heightmaps {
    pub motion_blocking: Option<Vec<i64>>,
    pub world_surface: Option<Vec<i64>>,
}

/// The model of [`Heightmaps`].
pub struct HeightmapsView {
    pub motion_blocking: Option<Seq<i64>>,
    pub world_surface: Option<Seq<i64>>,
}

/// A slice of a chunk, sixteen blocks high.
#[derive(Debug, PartialEq, Eq)]
pub struct Section {
    pub y: i8,
    pub block_states: Option<BlockStates>,
    pub biomes: Option<Biomes>,
    pub block_light: Option<Vec<u8>>,
    pub sky_light: Option<Vec<u8>>,
}

/// The model of a [`Section`].
pub struct SectionView {
    pub y: i8,
    pub block_states: Option<BlockStatesView>,
    pub biomes: Option<BiomesView>,
    pub block_light: Option<Seq<u8>>,
    pub sky_light: Option<Seq<u8>>,
}

/// A column of the world as it is stored.
#[derive(Debug, PartialEq, Eq)]
pub struct Chunk {
    pub dimension: String,
    pub x: i32,
    pub z: i32,
    pub y_pos: i32,
    pub sections: Option<Vec<Section>>,
    pub heightmaps: Heightmaps,
    pub status: String,
    pub data_version: i32,
    pub last_update: Option<i64>,
    pub inhabited_time: Option<i64>,
    pub is_light_on: Option<bool>,
}

/// The model of a [`Chunk`].
pub struct ChunkView {
    pub dimension: Seq<char>,
    pub x: i32,
    pub z: i32,
    pub y_pos: i32,
    pub sections: Option<Seq<SectionView>>,
    pub heightmaps: HeightmapsView,
    pub status: Seq<char>,
    pub data_version: i32,
    pub last_update: Option<i64>,
    pub inhabited_time: Option<i64>,
    pub is_light_on: Option<bool>,
}

impl DeepView for Palette {
    type V = PaletteView;

    open spec fn deep_view(&self) -> PaletteView {
        PaletteView { name: self.name@ }
    }
}

impl View for Palette {
    type V = PaletteView;

    open spec fn view(&self) -> PaletteView {
        self.deep_view()
    }
}

impl DeepView for BlockStates {
    type V = BlockStatesView;

    open spec fn deep_view(&self) -> BlockStatesView {
        BlockStatesView { data: self.data.deep_view(), palette: self.palette.deep_view() }
    }
}

impl View for BlockStates {
    type V = BlockStatesView;

    open spec fn view(&self) -> BlockStatesView {
        self.deep_view()
    }
}

impl DeepView for Biomes {
    type V = BiomesView;

    open spec fn deep_view(&self) -> BiomesView {
        BiomesView { palette: self.palette.deep_view() }
    }
}

impl View for Biomes {
    type V = BiomesView;

    open spec fn view(&self) -> BiomesView {
        self.deep_view()
    }
}

impl DeepView for Heightmaps {
    type V = HeightmapsView;

    open spec fn deep_view(&self) -> HeightmapsView {
        HeightmapsView {
            motion_blocking: self.motion_blocking.deep_view(),
            world_surface: self.world_surface.deep_view(),
        }
    }
}

impl View for Heightmaps {
    type V = HeightmapsView;

    open spec fn view(&self) -> HeightmapsView {
        self.deep_view()
    }
}

impl DeepView for Section {
    type V = SectionView;

    open spec fn deep_view(&self) -> SectionView {
        SectionView {
            y: self.y,
            block_states: self.block_states.deep_view(),
            biomes: self.biomes.deep_view(),
            block_light: self.block_light.deep_view(),
            sky_light: self.sky_light.deep_view(),
        }
    }
}

impl View for Section {
    type V = SectionView;

    open spec fn view(&self) -> SectionView {
        self.deep_view()
    }
}

impl DeepView for Chunk {
    type V = ChunkView;

    open spec fn deep_view(&self) -> ChunkView {
        ChunkView {
            dimension: self.dimension@,
            x: self.x,
            z: self.z,
            y_pos: self.y_pos,
            sections: self.sections.deep_view(),
            heightmaps: self.heightmaps.deep_view(),
            status: self.status@,
            data_version: self.data_version,
            last_update: self.last_update,
            inhabited_time: self.inhabited_time,
            is_light_on: self.is_light_on,
        }
    }
}

impl View for Chunk {
    type V = ChunkView;

    open spec fn view(&self) -> ChunkView {
        self.deep_view()
    }
}

/// A copy of `words`.
fn copy_words(words: &Option<Vec<i64>>) -> (r: Option<Vec<i64>>)
    ensures
        r.deep_view() == words.deep_view(),
{
    match words {
        Some(held) => {
            let copy = held.clone();
            assert(copy.deep_view() =~= held.deep_view());
            Some(copy)
        },
        None => None,
    }
}

/// A copy of `bytes`.
fn copy_bytes(bytes: &Option<Vec<u8>>) -> (r: Option<Vec<u8>>)
    ensures
        r.deep_view() == bytes.deep_view(),
{
    match bytes {
        Some(held) => {
            let copy = held.clone();
            assert(copy.deep_view() =~= held.deep_view());
            Some(copy)
        },
        None => None,
    }
}

impl Clone for Palette {
    fn clone(&self) -> (r: Self)
        ensures
            r@ == self@,
    {
        Palette { name: self.name.clone() }
    }
}

impl Clone for BlockStates {
    fn clone(&self) -> (r: Self)
        ensures
            r@ == self@,
    {
        let mut palette: Vec<Palette> = Vec::new();
        let mut i: usize = 0;
        while i < self.palette.len()
            invariant
                i <= self.palette.len(),
                palette.len() == i,
                forall|j: int| 0 <= j < i ==> palette[j]@ == self.palette[j]@,
            decreases self.palette.len() - i,
        {
            palette.push(self.palette[i].clone());
            i += 1;
        }
        assert(palette.deep_view() =~= self.palette.deep_view());
        BlockStates { data: copy_words(&self.data), palette }
    }
}

impl Clone for Biomes {
    fn clone(&self) -> (r: Self)
        ensures
            r@ == self@,
    {
        let mut palette: Vec<String> = Vec::new();
        let mut i: usize = 0;
        while i < self.palette.len()
            invariant
                i <= self.palette.len(),
                palette.len() == i,
                forall|j: int| 0 <= j < i ==> palette[j]@ == self.palette[j]@,
            decreases self.palette.len() - i,
        {
            palette.push(self.palette[i].clone());
            i += 1;
        }
        assert(palette.deep_view() =~= self.palette.deep_view());
        Biomes { palette }
    }
}

impl Clone for Heightmaps {
    fn clone(&self) -> (r: Self)
        ensures
            r@ == self@,
    {
        Heightmaps {
            motion_blocking: copy_words(&self.motion_blocking),
            world_surface: copy_words(&self.world_surface),
        }
    }
}

impl Clone for Section {
    fn clone(&self) -> (r: Self)
        ensures
            r@ == self@,
    {
        let block_states = match &self.block_states {
            Some(held) => Some(held.clone()),
            None => None,
        };
        let biomes = match &self.biomes {
            Some(held) => Some(held.clone()),
            None => None,
        };
        Section {
            y: self.y,
            block_states,
            biomes,
            block_light: copy_bytes(&self.block_light),
            sky_light: copy_bytes(&self.sky_light),
        }
    }
}

impl Clone for Chunk {
    fn clone(&self) -> (r: Self)
        ensures
            r@ == self@,
    {
        let sections = match &self.sections {
            Some(held) => {
                let mut copy: Vec<Section> = Vec::new();
                let mut i: usize = 0;
                while i < held.len()
                    invariant
                        i <= held.len(),
                        copy.len() == i,
                        forall|j: int| 0 <= j < i ==> copy[j]@ == held[j]@,
                    decreases held.len() - i,
                {
                    copy.push(held[i].clone());
                    i += 1;
                }
                assert(copy.deep_view() =~= held.deep_view());
                Some(copy)
            },
            None => None,
        };
        Chunk {
            dimension: self.dimension.clone(),
            x: self.x,
            z: self.z,
            y_pos: self.y_pos,
            sections,
            heightmaps: self.heightmaps.clone(),
            status: self.status.clone(),
            data_version: self.data_version,
            last_update: self.last_update,
            inhabited_time: self.inhabited_time,
            is_light_on: self.is_light_on,
        }
    }
}

} // verus!
