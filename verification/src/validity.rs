//! The invariant of block states: every index packed in the data points
//! into the palette.
//!
//! Indices are packed into 64-bit words, lowest bits first. All indices of
//! a section have one width: four bits, or as many as the largest index
//! of the palette needs. An index never straddles two words: bits of a
//! word that no whole index fits in are left unused.

use vstd::prelude::*;
use crate::chunk_format::{BlockStates, Chunk, Section};
use crate::endian::{bits_of_i64, i64_bits};

verus! {

/// The width in bits of the indices into a palette of `entries` entries.
pub open spec fn index_width(entries: nat) -> nat
    decreases entries,
{
    if entries <= 16 {
        4
    } else {
        1 + index_width((entries + 1) / 2)
    }
}

/// The ones of an index of `width` bits.
pub open spec fn index_mask(width: nat) -> u64 {
    if width >= 64 {
        u64::MAX
    } else {
        ((1u64 << (width as u64)) - 1) as u64
    }
}

/// The index in slot `slot` of `word`, for indices of `width` bits.
pub open spec fn index_at(word: u64, width: nat, slot: nat) -> u64 {
    (word >> ((slot * width) as u64)) & index_mask(width)
}

/// Whether every index packed in `word` is below `entries`.
pub open spec fn word_in_range(word: u64, width: nat, entries: nat) -> bool {
    forall|slot: nat| slot < 64nat / width ==> (#[trigger] index_at(word, width, slot)) < entries
}

/// Whether the data of block states points into their palette: with data
/// there is a palette, and every index is below its length.
pub open spec fn block_states_valid(data: Option<Seq<i64>>, entries: nat) -> bool {
    match data {
        None => true,
        Some(words) => entries >= 1 && words_valid(words, entries),
    }
}

/// Whether every index packed in `words` is below `entries`.
pub open spec fn words_valid(words: Seq<i64>, entries: nat) -> bool {
    forall|i: int| 0 <= i < words.len() ==> #[trigger] word_valid(words, i, entries)
}

/// Whether every index packed in the word at `i` is below `entries`.
pub open spec fn word_valid(words: Seq<i64>, i: int, entries: nat) -> bool {
    word_in_range(bits_of_i64(words[i]), index_width(entries), entries)
}

/// Whether the block states of a section, where it has any, are valid.
pub open spec fn section_valid(section: Section) -> bool {
    match section.block_states {
        None => true,
        Some(states) => block_states_valid(states.data.deep_view(), states.palette@.len()),
    }
}

/// Whether the block states of every section of a chunk are valid.
pub open spec fn chunk_valid(chunk: Chunk) -> bool {
    match chunk.sections {
        None => true,
        Some(sections) => sections_valid(sections@),
    }
}

/// Whether the block states of every one of `sections` are valid.
pub open spec fn sections_valid(sections: Seq<Section>) -> bool {
    forall|i: int| 0 <= i < sections.len() ==> #[trigger] section_valid(sections[i])
}

/// The width is four bits at least, and sixty-four at most for a palette
/// whose length fits in 64 bits.
pub proof fn lemma_index_width_bounds(entries: nat)
    ensures
        4 <= index_width(entries),
        entries <= u64::MAX ==> index_width(entries) <= 64,
    decreases entries,
{
    if entries > 16 {
        lemma_index_width_bounds((entries + 1) / 2);
        if entries <= u64::MAX {
            lemma_pow2_64();
            lemma_index_width_halves(entries, 64);
        }
    }
}

/// Two to the power of a sum is the product of the powers.
proof fn lemma_pow2_sum(a: nat, b: nat)
    ensures
        pow2(a + b) == pow2(a) * pow2(b),
    decreases b,
{
    if b > 0 {
        lemma_pow2_sum(a, (b - 1) as nat);
        assert(pow2(a + b) == 2 * pow2((a + b - 1) as nat));
        assert(2 * (pow2(a) * pow2((b - 1) as nat)) == pow2(a) * (2 * pow2((b - 1) as nat)))
            by (nonlinear_arith);
    } else {
        assert(pow2(a) * 1 == pow2(a));
    }
}

/// Two to the power 64 is one more than the largest `u64`.
proof fn lemma_pow2_64()
    ensures
        pow2(64) == u64::MAX + 1,
{
    assert(pow2(8) == 256) by {
        reveal_with_fuel(pow2, 9);
    }
    lemma_pow2_sum(8, 8);
    lemma_pow2_sum(16, 16);
    lemma_pow2_sum(32, 32);
    assert(pow2(16) == 65536);
    assert(pow2(32) == 0x1_0000_0000) by (nonlinear_arith)
        requires
            pow2(32) == pow2(16) * pow2(16),
            pow2(16) == 65536,
    ;
    assert(pow2(64) == 0x1_0000_0000_0000_0000) by (nonlinear_arith)
        requires
            pow2(64) == pow2(32) * pow2(32),
            pow2(32) == 0x1_0000_0000,
    ;
}

/// A palette of at most two to the `bits` entries has indices of at most
/// `bits` bits, from four bits on.
proof fn lemma_index_width_halves(entries: nat, bits: nat)
    requires
        4 <= bits,
        entries <= pow2(bits),
    ensures
        index_width(entries) <= bits,
    decreases entries,
{
    if entries > 16 {
        assert(pow2(4) == 16) by {
            reveal_with_fuel(pow2, 5);
        }
        if bits == 4 {
        } else {
            assert(pow2(bits) == 2 * pow2((bits - 1) as nat));
            lemma_index_width_halves((entries + 1) / 2, (bits - 1) as nat);
        }
    }
}

/// Two to the power `k`.
pub open spec fn pow2(k: nat) -> nat
    decreases k,
{
    if k == 0 {
        1
    } else {
        2 * pow2((k - 1) as nat)
    }
}

/// The width of the indices into a palette of `entries` entries.
pub fn width_of(entries: usize) -> (width: u32)
    ensures
        width == index_width(entries as nat),
        4 <= width <= 64,
{
    proof {
        lemma_index_width_bounds(entries as nat);
    }
    let mut left: usize = entries;
    let mut width: u32 = 4;
    while left > 16
        invariant
            width + index_width(left as nat) == 4 + index_width(entries as nat),
            4 <= width,
            index_width(entries as nat) <= 64,
        decreases left,
    {
        proof {
            lemma_index_width_bounds(((left + 1) / 2) as nat);
        }
        left = left / 2 + left % 2;
        width += 1;
    }
    width
}

/// Whether every index packed in `word` is below `entries`.
fn check_word(word: u64, width: u32, entries: usize) -> (r: bool)
    requires
        4 <= width <= 64,
    ensures
        r == word_in_range(word, width as nat, entries as nat),
{
    let slots: u32 = 64 / width;
    let mask: u64 = if width >= 64 {
        u64::MAX
    } else {
        assert((1u64 << (width as u64)) >= 1) by (bit_vector)
            requires
                width < 64,
        ;
        (1u64 << (width as u64)) - 1
    };
    let mut slot: u32 = 0;
    while slot < slots
        invariant
            4 <= width <= 64,
            slots == 64u32 / width,
            slot <= slots,
            mask == index_mask(width as nat),
            forall|done: nat|
                done < slot ==> (#[trigger] index_at(word, width as nat, done)) < entries,
        decreases slots - slot,
    {
        assert(slot * width < 64) by (nonlinear_arith)
            requires
                slot < 64u32 / width,
                width >= 4,
        ;
        let index: u64 = (word >> ((slot * width) as u64)) & mask;
        assert(index == index_at(word, width as nat, slot as nat));
        if index >= entries as u64 {
            return false;
        }
        slot += 1;
    }
    true
}

impl BlockStates {
    /// Whether the data points into the palette.
    pub fn is_valid(&self) -> (r: bool)
        ensures
            r == block_states_valid(self.data.deep_view(), self.palette@.len()),
    {
        match &self.data {
            None => true,
            Some(words) => {
                let entries = self.palette.len();
                if entries == 0 {
                    return false;
                }
                let width = width_of(entries);
                let ghost model = self.data.deep_view().unwrap();
                assert(model =~= words@) by {
                    assert(words.deep_view() =~= words@);
                }
                let mut i: usize = 0;
                while i < words.len()
                    invariant
                        i <= words.len(),
                        entries >= 1,
                        4 <= width <= 64,
                        width == index_width(entries as nat),
                        model == words@,
                        Some(model) == self.data.deep_view(),
                        entries == self.palette@.len(),
                        forall|j: int| 0 <= j < i ==> #[trigger] word_valid(model, j, entries as nat),
                    decreases words.len() - i,
                {
                    if !check_word(i64_bits(words[i]), width, entries) {
                        assert(!word_in_range(
                            bits_of_i64(model[i as int]),
                            index_width(entries as nat),
                            entries as nat,
                        ));
                        assert(!word_valid(model, i as int, entries as nat));
                        return false;
                    }
                    assert(word_valid(model, i as int, entries as nat));
                    i += 1;
                }
                true
            },
        }
    }
}

impl Section {
    /// Whether the block states, where there are any, are valid.
    pub fn is_valid(&self) -> (r: bool)
        ensures
            r == section_valid(*self),
    {
        match &self.block_states {
            None => true,
            Some(states) => states.is_valid(),
        }
    }
}

impl Chunk {
    /// Whether the block states of every section are valid.
    pub fn is_valid(&self) -> (r: bool)
        ensures
            r == chunk_valid(*self),
    {
        match &self.sections {
            None => true,
            Some(sections) => {
                let mut i: usize = 0;
                while i < sections.len()
                    invariant
                        i <= sections.len(),
                        self.sections == Some(*sections),
                        forall|j: int| 0 <= j < i ==> #[trigger] section_valid(sections@[j]),
                    decreases sections.len() - i,
                {
                    if !sections[i].is_valid() {
                        assert(!section_valid(sections@[i as int]));
                        return false;
                    }
                    i += 1;
                }
                true
            },
        }
    }
}

} // verus!
