//! Fixed-width integers as little-endian bytes.
//!
//! Everything the crate hashes or stores goes through these functions, so
//! the byte order is the same on every machine.

use vstd::prelude::*;

verus! {

/// The four bytes of `v`, lowest first.
pub open spec fn le_bytes_u32(v: u32) -> Seq<u8> {
    seq![
        (v % 256) as u8,
        (v / 256 % 256) as u8,
        (v / 256 / 256 % 256) as u8,
        (v / 256 / 256 / 256 % 256) as u8,
    ]
}

/// The eight bytes of `v`, lowest first: its low word, then its high word.
pub open spec fn le_bytes_u64(v: u64) -> Seq<u8> {
    le_bytes_u32((v % 0x1_0000_0000) as u32) + le_bytes_u32((v / 0x1_0000_0000) as u32)
}

/// The number whose four little-endian bytes are the first four of `bytes`.
pub open spec fn u32_of_le_bytes(bytes: Seq<u8>) -> u32
    recommends
        bytes.len() >= 4,
{
    (bytes[0] + bytes[1] * 0x100 + bytes[2] * 0x1_0000 + bytes[3] * 0x100_0000) as u32
}

/// The number whose eight little-endian bytes are the first eight of `bytes`.
pub open spec fn u64_of_le_bytes(bytes: Seq<u8>) -> u64
    recommends
        bytes.len() >= 8,
{
    (u32_of_le_bytes(bytes) + u32_of_le_bytes(bytes.skip(4)) * 0x1_0000_0000) as u64
}

/// The unsigned number with the same 32 bits as `v` in two's complement.
pub open spec fn bits_of_i32(v: i32) -> u32 {
    if v >= 0 {
        v as u32
    } else {
        (v + 0x1_0000_0000) as u32
    }
}

/// The signed number with the same 32 bits as `bits` in two's complement.
pub open spec fn i32_of_bits(bits: u32) -> i32 {
    if bits < 0x8000_0000 {
        bits as i32
    } else {
        (bits - 0x1_0000_0000) as i32
    }
}

/// The unsigned number with the same 64 bits as `v` in two's complement.
pub open spec fn bits_of_i64(v: i64) -> u64 {
    if v >= 0 {
        v as u64
    } else {
        (v + 0x1_0000_0000_0000_0000) as u64
    }
}

/// The signed number with the same 64 bits as `bits` in two's complement.
pub open spec fn i64_of_bits(bits: u64) -> i64 {
    if bits < 0x8000_0000_0000_0000 {
        bits as i64
    } else {
        (bits - 0x1_0000_0000_0000_0000) as i64
    }
}

/// Reading the four bytes written for `v` gives `v` back.
pub proof fn lemma_u32_read_written(v: u32)
    ensures
        le_bytes_u32(v).len() == 4,
        u32_of_le_bytes(le_bytes_u32(v)) == v,
{
    assert((v % 256) + (v / 256 % 256) * 0x100 + (v / 256 / 256 % 256) * 0x1_0000 + (v / 256 / 256
        / 256 % 256) * 0x100_0000 == v) by (bit_vector);
}

/// Writing the number read from four bytes gives the four bytes back.
pub proof fn lemma_u32_written_read(bytes: Seq<u8>)
    requires
        bytes.len() == 4,
    ensures
        le_bytes_u32(u32_of_le_bytes(bytes)) == bytes,
{
    let b0 = bytes[0];
    let b1 = bytes[1];
    let b2 = bytes[2];
    let b3 = bytes[3];
    let v: u32 = (b0 + b1 * 0x100 + b2 * 0x1_0000 + b3 * 0x100_0000) as u32;
    assert(v % 256 == b0 && v / 256 % 256 == b1 && v / 256 / 256 % 256 == b2 && v / 256 / 256 / 256
        % 256 == b3) by (bit_vector)
        requires
            v == b0 as u32 + (b1 as u32) * 0x100 + (b2 as u32) * 0x1_0000 + (b3 as u32)
                * 0x100_0000,
    ;
    assert(le_bytes_u32(v) =~= bytes);
}

/// Reading the eight bytes written for `v` gives `v` back.
pub proof fn lemma_u64_read_written(v: u64)
    ensures
        le_bytes_u64(v).len() == 8,
        u64_of_le_bytes(le_bytes_u64(v)) == v,
{
    let low = (v % 0x1_0000_0000) as u32;
    let high = (v / 0x1_0000_0000) as u32;
    lemma_u32_read_written(low);
    lemma_u32_read_written(high);
    assert(le_bytes_u64(v).skip(4) =~= le_bytes_u32(high));
    assert(u32_of_le_bytes(le_bytes_u64(v)) == u32_of_le_bytes(le_bytes_u32(low)));
}

/// A number made of a low and a high word splits back into them.
proof fn lemma_words(low: u32, high: u32)
    ensures
        (low + high * 0x1_0000_0000) % 0x1_0000_0000 == low,
        (low + high * 0x1_0000_0000) / 0x1_0000_0000 == high,
        low + high * 0x1_0000_0000 <= u64::MAX,
{
}

/// Writing the number read from eight bytes gives the eight bytes back.
pub proof fn lemma_u64_written_read(bytes: Seq<u8>)
    requires
        bytes.len() == 8,
    ensures
        le_bytes_u64(u64_of_le_bytes(bytes)) == bytes,
{
    let front = bytes.take(4);
    let back = bytes.skip(4);
    lemma_u32_written_read(front);
    lemma_u32_written_read(back);
    let low = u32_of_le_bytes(front);
    let high = u32_of_le_bytes(back);
    assert(u32_of_le_bytes(bytes) == low);
    lemma_words(low, high);
    let v = u64_of_le_bytes(bytes);
    assert(v == low + high * 0x1_0000_0000);
    assert(le_bytes_u64(v) == le_bytes_u32(low) + le_bytes_u32(high));
    assert(front + back =~= bytes);
}

/// Two's complement is one-to-one between `i32` and `u32`, and between
/// `i64` and `u64`.
pub proof fn lemma_bits_inverse(a: i32, b: u32, c: i64, d: u64)
    ensures
        i32_of_bits(bits_of_i32(a)) == a,
        bits_of_i32(i32_of_bits(b)) == b,
        i64_of_bits(bits_of_i64(c)) == c,
        bits_of_i64(i64_of_bits(d)) == d,
{
}

/// The bits of `v`, as an unsigned number.
pub fn i32_bits(v: i32) -> (r: u32)
    ensures
        r == bits_of_i32(v),
{
    assert(v as u32 == if v >= 0 {
        v as u32
    } else {
        (v + 0x1_0000_0000) as u32
    }) by (bit_vector);
    v as u32
}

/// The signed number with the bits of `bits`.
pub fn i32_from_bits(bits: u32) -> (r: i32)
    ensures
        r == i32_of_bits(bits),
{
    assert(bits as i32 == if bits < 0x8000_0000 {
        bits as i32
    } else {
        (bits - 0x1_0000_0000) as i32
    }) by (bit_vector);
    bits as i32
}

/// The bits of `v`, as an unsigned number.
pub fn i64_bits(v: i64) -> (r: u64)
    ensures
        r == bits_of_i64(v),
{
    assert(v as u64 == if v >= 0 {
        v as u64
    } else {
        (v + 0x1_0000_0000_0000_0000) as u64
    }) by (bit_vector);
    v as u64
}

/// The signed number with the bits of `bits`.
pub fn i64_from_bits(bits: u64) -> (r: i64)
    ensures
        r == i64_of_bits(bits),
{
    assert(bits as i64 == if bits < 0x8000_0000_0000_0000 {
        bits as i64
    } else {
        (bits - 0x1_0000_0000_0000_0000) as i64
    }) by (bit_vector);
    bits as i64
}

/// Appends the four little-endian bytes of `v` to `out`.
pub fn put_u32(out: &mut Vec<u8>, v: u32)
    ensures
        final(out)@ == old(out)@ + le_bytes_u32(v),
{
    let b0: u8 = (v & 0xff) as u8;
    let b1: u8 = ((v >> 8) & 0xff) as u8;
    let b2: u8 = ((v >> 16) & 0xff) as u8;
    let b3: u8 = ((v >> 24) & 0xff) as u8;
    proof {
        assert(v & 0xff == v % 256) by (bit_vector);
        assert((v >> 8) & 0xff == v / 256 % 256) by (bit_vector);
        assert((v >> 16) & 0xff == v / 256 / 256 % 256) by (bit_vector);
        assert((v >> 24) & 0xff == v / 256 / 256 / 256 % 256) by (bit_vector);
    }
    out.push(b0);
    out.push(b1);
    out.push(b2);
    out.push(b3);
    proof {
        assert(out@ =~= old(out)@ + le_bytes_u32(v));
    }
}

/// Appends the eight little-endian bytes of `v` to `out`.
pub fn put_u64(out: &mut Vec<u8>, v: u64)
    ensures
        final(out)@ == old(out)@ + le_bytes_u64(v),
{
    let low: u32 = (v & 0xffff_ffff) as u32;
    let high: u32 = (v >> 32) as u32;
    proof {
        assert(v & 0xffff_ffff == v % 0x1_0000_0000) by (bit_vector);
        assert(v >> 32 == v / 0x1_0000_0000) by (bit_vector);
    }
    put_u32(out, low);
    put_u32(out, high);
    proof {
        assert(out@ =~= old(out)@ + le_bytes_u64(v));
    }
}

/// Reads the `u32` whose little-endian bytes stand at `at`.
pub fn get_u32(input: &[u8], at: usize) -> (r: u32)
    requires
        at + 4 <= input@.len(),
    ensures
        r == u32_of_le_bytes(input@.skip(at as int)),
{
    let b0: u32 = input[at] as u32;
    let b1: u32 = input[at + 1] as u32;
    let b2: u32 = input[at + 2] as u32;
    let b3: u32 = input[at + 3] as u32;
    b0 + b1 * 0x100 + b2 * 0x1_0000 + b3 * 0x100_0000
}

/// Reads the `u64` whose little-endian bytes stand at `at`.
pub fn get_u64(input: &[u8], at: usize) -> (r: u64)
    requires
        at + 8 <= input@.len(),
    ensures
        r == u64_of_le_bytes(input@.skip(at as int)),
{
    let len = input.len();
    let low: u64 = get_u32(input, at) as u64;
    let high: u64 = get_u32(input, at + 4) as u64;
    proof {
        assert(input@.skip(at as int).skip(4) =~= input@.skip(at + 4));
    }
    low + high * 0x1_0000_0000
}

} // verus!

verus! {

/// The eight bytes of `v`, highest first.
pub open spec fn be_bytes_u64(v: u64) -> Seq<u8> {
    le_bytes_u64(v).reverse()
}

/// Two numbers with the same big-endian bytes are the same number.
pub proof fn lemma_be_bytes_one_to_one(a: u64, b: u64)
    requires
        be_bytes_u64(a) == be_bytes_u64(b),
    ensures
        a == b,
{
    lemma_u64_read_written(a);
    lemma_u64_read_written(b);
    let x = le_bytes_u64(a);
    let y = le_bytes_u64(b);
    assert(x.reverse().len() == 8 && y.reverse().len() == 8);
    assert forall|i: int| 0 <= i < 8 implies x[i] == y[i] by {
        assert(x.reverse()[7 - i] == x[i]);
        assert(y.reverse()[7 - i] == y[i]);
    }
    assert(x =~= y);
}

/// Appends the eight big-endian bytes of `v` to `out`.
pub fn put_u64_be(out: &mut Vec<u8>, v: u64)
    ensures
        final(out)@ == old(out)@ + be_bytes_u64(v),
{
    let mut low: Vec<u8> = Vec::new();
    put_u64(&mut low, v);
    proof {
        lemma_u64_read_written(v);
        assert(low@ =~= le_bytes_u64(v));
    }
    let mut i: usize = 8;
    while i > 0
        invariant
            i <= 8,
            low@ == le_bytes_u64(v),
            low@.len() == 8,
            out@ == old(out)@ + be_bytes_u64(v).take(8 - i),
        decreases i,
    {
        i -= 1;
        out.push(low[i]);
        proof {
            assert(be_bytes_u64(v)[7 - i] == low@[i as int]);
            assert(out@ =~= old(out)@ + be_bytes_u64(v).take(8 - i));
        }
    }
    proof {
        assert(be_bytes_u64(v).take(8) =~= be_bytes_u64(v));
    }
}

} // verus!
