//! The wire form of a chunk: its fields in declaration order, each in the
//! wire form of its type.

use vstd::prelude::*;
use crate::chunk_format::{
    Biomes, BiomesView, BlockStates, BlockStatesView, Chunk, ChunkView, Heightmaps,
    HeightmapsView, Palette, PaletteView, Section, SectionView,
};
use crate::codec::wire::Wire;

verus! {

impl Wire for Palette {
    open spec fn fits(v: PaletteView) -> bool {
        String::fits(v.name)
    }

    open spec fn wire(v: PaletteView) -> Seq<u8> {
        String::wire(v.name)
    }

    open spec fn parse(input: Seq<u8>) -> Option<(PaletteView, nat)> {
        match String::parse(input) {
            Some((name, taken)) => Some((PaletteView { name }, taken)),
            None => None,
        }
    }

    proof fn lemma_parse_wire(v: PaletteView, rest: Seq<u8>) {
        String::lemma_parse_wire(v.name, rest);
    }

    proof fn lemma_wire_parse(input: Seq<u8>) {
        String::lemma_wire_parse(input);
    }

    fn encode(&self, out: &mut Vec<u8>) {
        self.name.encode(out);
    }

    fn decode(input: &[u8], start: usize) -> (r: Option<(Self, usize)>) {
        match String::decode(input, start) {
            Some((name, end)) => Some((Palette { name }, end)),
            None => None,
        }
    }
}

/// The fields of block states, in wire order.
pub open spec fn block_states_fields(v: BlockStatesView) -> (Option<Seq<i64>>, Seq<PaletteView>) {
    (v.data, v.palette)
}

impl Wire for BlockStates {
    open spec fn fits(v: BlockStatesView) -> bool {
        <(Option<Vec<i64>>, Vec<Palette>)>::fits(block_states_fields(v))
    }

    open spec fn wire(v: BlockStatesView) -> Seq<u8> {
        <(Option<Vec<i64>>, Vec<Palette>)>::wire(block_states_fields(v))
    }

    open spec fn parse(input: Seq<u8>) -> Option<(BlockStatesView, nat)> {
        match <(Option<Vec<i64>>, Vec<Palette>)>::parse(input) {
            Some((fields, taken)) => Some(
                (BlockStatesView { data: fields.0, palette: fields.1 }, taken),
            ),
            None => None,
        }
    }

    proof fn lemma_parse_wire(v: BlockStatesView, rest: Seq<u8>) {
        <(Option<Vec<i64>>, Vec<Palette>)>::lemma_parse_wire(block_states_fields(v), rest);
    }

    proof fn lemma_wire_parse(input: Seq<u8>) {
        <(Option<Vec<i64>>, Vec<Palette>)>::lemma_wire_parse(input);
    }

    fn encode(&self, out: &mut Vec<u8>) {
        self.data.encode(out);
        self.palette.encode(out);
        assert(out@ =~= old(out)@ + Self::wire(self.deep_view()));
    }

    fn decode(input: &[u8], start: usize) -> (r: Option<(Self, usize)>) {
        match <(Option<Vec<i64>>, Vec<Palette>)>::decode(input, start) {
            Some(((data, palette), end)) => Some((BlockStates { data, palette }, end)),
            None => None,
        }
    }
}

impl Wire for Biomes {
    open spec fn fits(v: BiomesView) -> bool {
        Vec::<String>::fits(v.palette)
    }

    open spec fn wire(v: BiomesView) -> Seq<u8> {
        Vec::<String>::wire(v.palette)
    }

    open spec fn parse(input: Seq<u8>) -> Option<(BiomesView, nat)> {
        match Vec::<String>::parse(input) {
            Some((palette, taken)) => Some((BiomesView { palette }, taken)),
            None => None,
        }
    }

    proof fn lemma_parse_wire(v: BiomesView, rest: Seq<u8>) {
        Vec::<String>::lemma_parse_wire(v.palette, rest);
    }

    proof fn lemma_wire_parse(input: Seq<u8>) {
        Vec::<String>::lemma_wire_parse(input);
    }

    fn encode(&self, out: &mut Vec<u8>) {
        self.palette.encode(out);
    }

    fn decode(input: &[u8], start: usize) -> (r: Option<(Self, usize)>) {
        match Vec::<String>::decode(input, start) {
            Some((palette, end)) => Some((Biomes { palette }, end)),
            None => None,
        }
    }
}

/// The fields of the height maps, in wire order.
pub open spec fn heightmaps_fields(v: HeightmapsView) -> (Option<Seq<i64>>, Option<Seq<i64>>) {
    (v.motion_blocking, v.world_surface)
}

impl Wire for Heightmaps {
    open spec fn fits(v: HeightmapsView) -> bool {
        <(Option<Vec<i64>>, Option<Vec<i64>>)>::fits(heightmaps_fields(v))
    }

    open spec fn wire(v: HeightmapsView) -> Seq<u8> {
        <(Option<Vec<i64>>, Option<Vec<i64>>)>::wire(heightmaps_fields(v))
    }

    open spec fn parse(input: Seq<u8>) -> Option<(HeightmapsView, nat)> {
        match <(Option<Vec<i64>>, Option<Vec<i64>>)>::parse(input) {
            Some((fields, taken)) => Some(
                (HeightmapsView { motion_blocking: fields.0, world_surface: fields.1 }, taken),
            ),
            None => None,
        }
    }

    proof fn lemma_parse_wire(v: HeightmapsView, rest: Seq<u8>) {
        <(Option<Vec<i64>>, Option<Vec<i64>>)>::lemma_parse_wire(heightmaps_fields(v), rest);
    }

    proof fn lemma_wire_parse(input: Seq<u8>) {
        <(Option<Vec<i64>>, Option<Vec<i64>>)>::lemma_wire_parse(input);
    }

    fn encode(&self, out: &mut Vec<u8>) {
        self.motion_blocking.encode(out);
        self.world_surface.encode(out);
        assert(out@ =~= old(out)@ + Self::wire(self.deep_view()));
    }

    fn decode(input: &[u8], start: usize) -> (r: Option<(Self, usize)>) {
        match <(Option<Vec<i64>>, Option<Vec<i64>>)>::decode(input, start) {
            Some(((motion_blocking, world_surface), end)) => Some(
                (Heightmaps { motion_blocking, world_surface }, end),
            ),
            None => None,
        }
    }
}

/// The executable types of a section's fields, in wire order.
pub type SectionFields = (
    i8,
    (Option<BlockStates>, (Option<Biomes>, (Option<Vec<u8>>, Option<Vec<u8>>))),
);

/// The fields of a section, in wire order.
pub open spec fn section_fields(v: SectionView) -> (
    i8,
    (Option<BlockStatesView>, (Option<BiomesView>, (Option<Seq<u8>>, Option<Seq<u8>>))),
) {
    (v.y, (v.block_states, (v.biomes, (v.block_light, v.sky_light))))
}

/// The section with the given fields.
pub open spec fn section_of_fields(
    fields: (
        i8,
        (Option<BlockStatesView>, (Option<BiomesView>, (Option<Seq<u8>>, Option<Seq<u8>>))),
    ),
) -> SectionView {
    SectionView {
        y: fields.0,
        block_states: fields.1.0,
        biomes: fields.1.1.0,
        block_light: fields.1.1.1.0,
        sky_light: fields.1.1.1.1,
    }
}

impl Wire for Section {
    open spec fn fits(v: SectionView) -> bool {
        SectionFields::fits(section_fields(v))
    }

    open spec fn wire(v: SectionView) -> Seq<u8> {
        SectionFields::wire(section_fields(v))
    }

    open spec fn parse(input: Seq<u8>) -> Option<(SectionView, nat)> {
        match SectionFields::parse(input) {
            Some((fields, taken)) => Some((section_of_fields(fields), taken)),
            None => None,
        }
    }

    proof fn lemma_parse_wire(v: SectionView, rest: Seq<u8>) {
        SectionFields::lemma_parse_wire(section_fields(v), rest);
    }

    proof fn lemma_wire_parse(input: Seq<u8>) {
        SectionFields::lemma_wire_parse(input);
    }

    fn encode(&self, out: &mut Vec<u8>) {
        self.y.encode(out);
        self.block_states.encode(out);
        self.biomes.encode(out);
        self.block_light.encode(out);
        self.sky_light.encode(out);
        assert(out@ =~= old(out)@ + Self::wire(self.deep_view()));
    }

    fn decode(input: &[u8], start: usize) -> (r: Option<(Self, usize)>) {
        match SectionFields::decode(input, start) {
            Some(((y, (block_states, (biomes, (block_light, sky_light)))), end)) => Some(
                (Section { y, block_states, biomes, block_light, sky_light }, end),
            ),
            None => None,
        }
    }
}

/// The executable types of a chunk's fields, in wire order.
pub type ChunkFields = (
    String,
    (
        i32,
        (
            i32,
            (
                i32,
                (
                    Option<Vec<Section>>,
                    (
                        Heightmaps,
                        (String, (i32, (Option<i64>, (Option<i64>, Option<bool>)))),
                    ),
                ),
            ),
        ),
    ),
);

/// The model of a chunk's fields, in wire order.
pub type ChunkFieldsView = (
    Seq<char>,
    (
        i32,
        (
            i32,
            (
                i32,
                (
                    Option<Seq<SectionView>>,
                    (
                        HeightmapsView,
                        (Seq<char>, (i32, (Option<i64>, (Option<i64>, Option<bool>)))),
                    ),
                ),
            ),
        ),
    ),
);

/// The fields of a chunk, in wire order.
pub open spec fn chunk_fields(v: ChunkView) -> ChunkFieldsView {
    (
        v.dimension,
        (
            v.x,
            (
                v.z,
                (
                    v.y_pos,
                    (
                        v.sections,
                        (
                            v.heightmaps,
                            (
                                v.status,
                                (
                                    v.data_version,
                                    (v.last_update, (v.inhabited_time, v.is_light_on)),
                                ),
                            ),
                        ),
                    ),
                ),
            ),
        ),
    )
}

/// The chunk with the given fields.
pub open spec fn chunk_of_fields(fields: ChunkFieldsView) -> ChunkView {
    ChunkView {
        dimension: fields.0,
        x: fields.1.0,
        z: fields.1.1.0,
        y_pos: fields.1.1.1.0,
        sections: fields.1.1.1.1.0,
        heightmaps: fields.1.1.1.1.1.0,
        status: fields.1.1.1.1.1.1.0,
        data_version: fields.1.1.1.1.1.1.1.0,
        last_update: fields.1.1.1.1.1.1.1.1.0,
        inhabited_time: fields.1.1.1.1.1.1.1.1.1.0,
        is_light_on: fields.1.1.1.1.1.1.1.1.1.1,
    }
}

impl Wire for Chunk {
    open spec fn fits(v: ChunkView) -> bool {
        ChunkFields::fits(chunk_fields(v))
    }

    open spec fn wire(v: ChunkView) -> Seq<u8> {
        ChunkFields::wire(chunk_fields(v))
    }

    open spec fn parse(input: Seq<u8>) -> Option<(ChunkView, nat)> {
        match ChunkFields::parse(input) {
            Some((fields, taken)) => Some((chunk_of_fields(fields), taken)),
            None => None,
        }
    }

    proof fn lemma_parse_wire(v: ChunkView, rest: Seq<u8>) {
        ChunkFields::lemma_parse_wire(chunk_fields(v), rest);
    }

    proof fn lemma_wire_parse(input: Seq<u8>) {
        ChunkFields::lemma_wire_parse(input);
    }

    fn encode(&self, out: &mut Vec<u8>) {
        self.dimension.encode(out);
        self.x.encode(out);
        self.z.encode(out);
        self.y_pos.encode(out);
        self.encode_body(out);
        assert(out@ =~= old(out)@ + Self::wire(self.deep_view()));
    }

    fn decode(input: &[u8], start: usize) -> (r: Option<(Self, usize)>) {
        match ChunkFields::decode(input, start) {
            Some((fields, end)) => {
                let (dimension, rest) = fields;
                let (x, rest) = rest;
                let (z, rest) = rest;
                let (y_pos, rest) = rest;
                let (sections, rest) = rest;
                let (heightmaps, rest) = rest;
                let (status, rest) = rest;
                let (data_version, rest) = rest;
                let (last_update, rest) = rest;
                let (inhabited_time, is_light_on) = rest;
                Some(
                    (
                        Chunk {
                            dimension,
                            x,
                            z,
                            y_pos,
                            sections,
                            heightmaps,
                            status,
                            data_version,
                            last_update,
                            inhabited_time,
                            is_light_on,
                        },
                        end,
                    ),
                )
            },
            None => None,
        }
    }
}

/// The executable types of the last five fields of a chunk.
pub type ChunkTail = (String, (i32, (Option<i64>, (Option<i64>, Option<bool>))));

/// The executable types of a chunk's fields from the sections on.
pub type ChunkBody = (Option<Vec<Section>>, (Heightmaps, ChunkTail));

impl Chunk {
    /// Appends the wire form of the last five fields.
    fn encode_tail(&self, out: &mut Vec<u8>)
        ensures
            ChunkTail::fits(chunk_fields(self.deep_view()).1.1.1.1.1.1),
            final(out)@ == old(out)@ + ChunkTail::wire(chunk_fields(self.deep_view()).1.1.1.1.1.1),
    {
        self.status.encode(out);
        self.data_version.encode(out);
        self.last_update.encode(out);
        self.inhabited_time.encode(out);
        self.is_light_on.encode(out);
        assert(out@ =~= old(out)@ + ChunkTail::wire(
            chunk_fields(self.deep_view()).1.1.1.1.1.1,
        ));
    }

    /// Appends the wire form of the fields from the sections on.
    fn encode_body(&self, out: &mut Vec<u8>)
        ensures
            ChunkBody::fits(chunk_fields(self.deep_view()).1.1.1.1),
            final(out)@ == old(out)@ + ChunkBody::wire(chunk_fields(self.deep_view()).1.1.1.1),
    {
        self.sections.encode(out);
        self.heightmaps.encode(out);
        self.encode_tail(out);
        assert(out@ =~= old(out)@ + ChunkBody::wire(chunk_fields(self.deep_view()).1.1.1.1));
    }
}

/// The record bytes of a chunk, before compression.
pub open spec fn encoding(c: ChunkView) -> Seq<u8> {
    Chunk::wire(c)
}

/// The chunk that `bytes` are the record of, if they are one: the wire
/// form of a chunk with nothing behind it.
pub open spec fn decoding(bytes: Seq<u8>) -> Option<ChunkView> {
    match Chunk::parse(bytes) {
        Some((c, taken)) => if taken == bytes.len() {
            Some(c)
        } else {
            None
        },
        None => None,
    }
}

/// Decoding the encoding of a chunk gives the chunk back.
pub proof fn lemma_round_trip(c: ChunkView)
    requires
        Chunk::fits(c),
    ensures
        decoding(encoding(c)) == Some(c),
{
    Chunk::lemma_parse_wire(c, Seq::empty());
    assert(encoding(c) + Seq::<u8>::empty() =~= encoding(c));
}

/// Bytes decode to a chunk exactly when they are its encoding: no two
/// chunks share a record and no chunk has two.
pub proof fn lemma_decoding_unique(bytes: Seq<u8>, c: ChunkView)
    ensures
        decoding(bytes) == Some(c) <==> Chunk::fits(c) && bytes == encoding(c),
{
    Chunk::lemma_wire_parse(bytes);
    if Chunk::fits(c) && bytes == encoding(c) {
        lemma_round_trip(c);
    }
    if decoding(bytes) == Some(c) {
        assert(bytes.take(bytes.len() as int) =~= bytes);
    }
}

/// Encodes a chunk into its record bytes.
pub fn encode(chunk: &Chunk) -> (bytes: Vec<u8>)
    ensures
        Chunk::fits(chunk@),
        bytes@ == encoding(chunk@),
        decoding(bytes@) == Some(chunk@),
{
    let mut out: Vec<u8> = Vec::new();
    chunk.encode(&mut out);
    proof {
        assert(out@ =~= encoding(chunk@));
        lemma_round_trip(chunk@);
    }
    out
}

/// Decodes record bytes into the chunk they stand for; `None` where they
/// stand for none.
pub fn decode(bytes: &[u8]) -> (r: Option<Chunk>)
    ensures
        match r {
            Some(chunk) => decoding(bytes@) == Some(chunk@),
            None => decoding(bytes@) is None,
        },
{
    proof {
        assert(bytes@.skip(0) =~= bytes@);
    }
    match Chunk::decode(bytes, 0) {
        Some((chunk, end)) => if end == bytes.len() {
            Some(chunk)
        } else {
            None
        },
        None => None,
    }
}

} // verus!
