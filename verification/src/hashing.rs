//! Stable 64-bit digests of structured keys.
//!
//! A key is a list of parts, fed in order: integers as their little-endian
//! bytes, byte strings behind their length. The digest is FNV-1a over the
//! bytes fed, so it depends on nothing but the parts themselves: no seed, no
//! address, no word size.

use vstd::prelude::*;
use crate::endian::{bits_of_i32, i32_bits, le_bytes_u32, le_bytes_u64, put_u32, put_u64};

verus! {

/// The value a digest starts from.
pub const FNV_OFFSET: u64 = 0xcbf2_9ce4_8422_2325;

/// The multiplier of each round.
pub const FNV_PRIME: u64 = 0x0000_0100_0000_01b3;

/// One round: fold `byte` into `state`.
pub open spec fn fnv_round(state: u64, byte: u8) -> u64 {
    (((state ^ (byte as u64)) as nat * FNV_PRIME as nat) % 0x1_0000_0000_0000_0000nat) as u64
}

/// The digest of `bytes` continuing from `state`.
pub open spec fn fnv_fold(state: u64, bytes: Seq<u8>) -> u64
    decreases bytes.len(),
{
    if bytes.len() == 0 {
        state
    } else {
        fnv_round(fnv_fold(state, bytes.drop_last()), bytes.last())
    }
}

/// The digest under which the chunk column at `(x, z)` is stored: both
/// coordinates, `x` first, each as four little-endian bytes.
pub open spec fn chunk_digest(x: i32, z: i32) -> u64 {
    fnv_fold(FNV_OFFSET, le_bytes_u32(bits_of_i32(x)) + le_bytes_u32(bits_of_i32(z)))
}

/// Folding two runs of bytes one after the other is folding their
/// concatenation.
pub proof fn lemma_fold_concat(state: u64, first: Seq<u8>, second: Seq<u8>)
    ensures
        fnv_fold(state, first + second) == fnv_fold(fnv_fold(state, first), second),
    decreases second.len(),
{
    if second.len() == 0 {
        assert(first + second =~= first);
    } else {
        lemma_fold_concat(state, first, second.drop_last());
        assert((first + second).drop_last() =~= first + second.drop_last());
        assert((first + second).last() == second.last());
    }
}

/// An FNV-1a digest in the making.
pub struct KeyHasher {
    state: u64,
}

impl KeyHasher {
    /// The digest of the parts fed so far.
    pub closed spec fn digest(&self) -> u64 {
        self.state
    }

    /// A hasher that was fed nothing.
    pub fn new() -> (r: Self)
        ensures
            r.digest() == FNV_OFFSET,
    {
        KeyHasher { state: FNV_OFFSET }
    }

    /// Feeds one byte.
    pub fn write_u8(&mut self, byte: u8)
        ensures
            final(self).digest() == fnv_round(old(self).digest(), byte),
    {
        self.state = (self.state ^ (byte as u64)).wrapping_mul(FNV_PRIME);
    }

    /// Feeds raw bytes, with no length in front.
    pub fn write_raw(&mut self, bytes: &[u8])
        ensures
            final(self).digest() == fnv_fold(old(self).digest(), bytes@),
    {
        let mut i: usize = 0;
        while i < bytes.len()
            invariant
                i <= bytes.len(),
                self.digest() == fnv_fold(old(self).digest(), bytes@.take(i as int)),
            decreases bytes.len() - i,
        {
            self.write_u8(bytes[i]);
            proof {
                assert(bytes@.take(i + 1).drop_last() =~= bytes@.take(i as int));
            }
            i += 1;
        }
        proof {
            assert(bytes@.take(i as int) =~= bytes@);
        }
    }

    /// Feeds an unsigned 32-bit integer as four little-endian bytes.
    pub fn write_u32(&mut self, v: u32)
        ensures
            final(self).digest() == fnv_fold(old(self).digest(), le_bytes_u32(v)),
    {
        let mut bytes: Vec<u8> = Vec::new();
        put_u32(&mut bytes, v);
        proof {
            assert(bytes@ =~= le_bytes_u32(v));
        }
        self.write_raw(bytes.as_slice());
    }

    /// Feeds a signed 32-bit integer as the four little-endian bytes of its
    /// two's complement.
    pub fn write_i32(&mut self, v: i32)
        ensures
            final(self).digest() == fnv_fold(old(self).digest(), le_bytes_u32(bits_of_i32(v))),
    {
        self.write_u32(i32_bits(v));
    }

    /// Feeds an unsigned 64-bit integer as eight little-endian bytes.
    pub fn write_u64(&mut self, v: u64)
        ensures
            final(self).digest() == fnv_fold(old(self).digest(), le_bytes_u64(v)),
    {
        let mut bytes: Vec<u8> = Vec::new();
        put_u64(&mut bytes, v);
        proof {
            assert(bytes@ =~= le_bytes_u64(v));
        }
        self.write_raw(bytes.as_slice());
    }

    /// Feeds a byte string: its length as eight little-endian bytes, then
    /// the bytes.
    pub fn write_bytes(&mut self, bytes: &[u8])
        ensures
            final(self).digest() == fnv_fold(
                old(self).digest(),
                le_bytes_u64(bytes@.len() as u64) + bytes@,
            ),
    {
        proof {
            lemma_fold_concat(old(self).digest(), le_bytes_u64(bytes@.len() as u64), bytes@);
        }
        self.write_u64(bytes.len() as u64);
        self.write_raw(bytes);
    }

    /// The digest of everything fed.
    pub fn finish(&self) -> (r: u64)
        ensures
            r == self.digest(),
    {
        self.state
    }
}

/// The digest of the chunk column at `(x, z)`. It is a function of the two
/// coordinates and nothing else, so every process on every machine gives a
/// column the same key.
pub fn hash(x: i32, z: i32) -> (digest: u64)
    ensures
        digest == chunk_digest(x, z),
{
    let mut hasher = KeyHasher::new();
    hasher.write_i32(x);
    hasher.write_i32(z);
    proof {
        lemma_fold_concat(
            FNV_OFFSET,
            le_bytes_u32(bits_of_i32(x)),
            le_bytes_u32(bits_of_i32(z)),
        );
    }
    hasher.finish()
}

} // verus!
