//! The wire form of the building blocks: integers, flags, optional values
//! and pairs.
//!
//! Every type that can be stored says, over its model, which bytes stand
//! for a value (`wire`) and which value stands at the head of a run of
//! bytes (`parse`). The two are inverse of each other in both directions,
//! and the executable `encode` and `decode` compute exactly them.

use vstd::prelude::*;
use crate::endian::{
    bits_of_i32, bits_of_i64, get_u32, get_u64, i32_bits, i32_from_bits, i32_of_bits, i64_bits,
    i64_from_bits, i64_of_bits, le_bytes_u32, le_bytes_u64, lemma_bits_inverse,
    lemma_u32_read_written, lemma_u32_written_read, lemma_u64_read_written,
    lemma_u64_written_read, put_u32, put_u64, u32_of_le_bytes, u64_of_le_bytes,
};

verus! {

/// A type with a wire form.
pub trait Wire: DeepView + Sized {
    /// Whether the model value `v` can be written: its lengths fit in 64
    /// bits. Every value of the executable type can.
    spec fn fits(v: Self::V) -> bool;

    /// The bytes that stand for `v`.
    spec fn wire(v: Self::V) -> Seq<u8>;

    /// The value at the head of `input` and the count of bytes it takes.
    spec fn parse(input: Seq<u8>) -> Option<(Self::V, nat)>;

    /// Parsing what was written for `v` gives `v`, whatever follows.
    proof fn lemma_parse_wire(v: Self::V, rest: Seq<u8>)
        requires
            Self::fits(v),
        ensures
            Self::parse(Self::wire(v) + rest) == Some((v, Self::wire(v).len())),
    ;

    /// What parses as `v` is the wire form of `v`, and is not empty.
    proof fn lemma_wire_parse(input: Seq<u8>)
        ensures
            Self::parse(input) matches Some((v, taken)) ==> Self::fits(v) && 1 <= taken
                <= input.len() && Self::wire(v) == input.take(taken as int),
    ;

    /// Appends the wire form of `self` to `out`.
    fn encode(&self, out: &mut Vec<u8>)
        ensures
            Self::fits(self.deep_view()),
            final(out)@ == old(out)@ + Self::wire(self.deep_view()),
    ;

    /// Reads the value that stands at `start`, and says where it ends.
    fn decode(input: &[u8], start: usize) -> (r: Option<(Self, usize)>)
        requires
            start <= input@.len(),
        ensures
            match r {
                Some((v, end)) => start < end <= input@.len() && Self::parse(
                    input@.skip(start as int),
                ) == Some((v.deep_view(), (end - start) as nat)),
                None => Self::parse(input@.skip(start as int)) is None,
            },
    ;
}

impl Wire for u8 {
    open spec fn fits(v: u8) -> bool {
        true
    }

    open spec fn wire(v: u8) -> Seq<u8> {
        seq![v]
    }

    open spec fn parse(input: Seq<u8>) -> Option<(u8, nat)> {
        if input.len() >= 1 {
            Some((input[0], 1nat))
        } else {
            None
        }
    }

    proof fn lemma_parse_wire(v: u8, rest: Seq<u8>) {
        assert((seq![v] + rest)[0] == v);
    }

    proof fn lemma_wire_parse(input: Seq<u8>) {
        if input.len() >= 1 {
            assert(seq![input[0]] =~= input.take(1));
        }
    }

    fn encode(&self, out: &mut Vec<u8>) {
        out.push(*self);
        assert(out@ =~= old(out)@ + seq![*self]);
    }

    fn decode(input: &[u8], start: usize) -> (r: Option<(Self, usize)>) {
        if start < input.len() {
            Some((input[start], start + 1))
        } else {
            None
        }
    }
}

/// The byte with the same bits as `v` in two's complement.
pub open spec fn bits_of_i8(v: i8) -> u8 {
    if v >= 0 {
        v as u8
    } else {
        (v + 256) as u8
    }
}

/// The signed number with the same bits as `b` in two's complement.
pub open spec fn i8_of_bits(b: u8) -> i8 {
    if b < 128 {
        b as i8
    } else {
        (b - 256) as i8
    }
}

impl Wire for i8 {
    open spec fn fits(v: i8) -> bool {
        true
    }

    open spec fn wire(v: i8) -> Seq<u8> {
        seq![bits_of_i8(v)]
    }

    open spec fn parse(input: Seq<u8>) -> Option<(i8, nat)> {
        if input.len() >= 1 {
            Some((i8_of_bits(input[0]), 1nat))
        } else {
            None
        }
    }

    proof fn lemma_parse_wire(v: i8, rest: Seq<u8>) {
        assert((seq![bits_of_i8(v)] + rest)[0] == bits_of_i8(v));
    }

    proof fn lemma_wire_parse(input: Seq<u8>) {
        if input.len() >= 1 {
            assert(seq![input[0]] =~= input.take(1));
        }
    }

    fn encode(&self, out: &mut Vec<u8>) {
        let v: i16 = *self as i16;
        let b: u8 = if v >= 0 {
            v as u8
        } else {
            (v + 256) as u8
        };
        out.push(b);
        assert(out@ =~= old(out)@ + seq![bits_of_i8(*self)]);
    }

    fn decode(input: &[u8], start: usize) -> (r: Option<(Self, usize)>) {
        if start < input.len() {
            let b: i16 = input[start] as i16;
            let v: i8 = if b < 128 {
                b as i8
            } else {
                (b - 256) as i8
            };
            Some((v, start + 1))
        } else {
            None
        }
    }
}

impl Wire for bool {
    open spec fn fits(v: bool) -> bool {
        true
    }

    open spec fn wire(v: bool) -> Seq<u8> {
        if v {
            seq![1u8]
        } else {
            seq![0u8]
        }
    }

    open spec fn parse(input: Seq<u8>) -> Option<(bool, nat)> {
        if input.len() >= 1 && input[0] <= 1 {
            Some((input[0] == 1, 1nat))
        } else {
            None
        }
    }

    proof fn lemma_parse_wire(v: bool, rest: Seq<u8>) {
        assert((Self::wire(v) + rest)[0] == Self::wire(v)[0]);
    }

    proof fn lemma_wire_parse(input: Seq<u8>) {
        if input.len() >= 1 && input[0] <= 1 {
            assert(Self::wire(input[0] == 1) =~= input.take(1));
        }
    }

    fn encode(&self, out: &mut Vec<u8>) {
        if *self {
            out.push(1);
        } else {
            out.push(0);
        }
        assert(out@ =~= old(out)@ + Self::wire(*self));
    }

    fn decode(input: &[u8], start: usize) -> (r: Option<(Self, usize)>) {
        if start < input.len() && input[start] <= 1 {
            Some((input[start] == 1, start + 1))
        } else {
            None
        }
    }
}

impl Wire for u64 {
    open spec fn fits(v: u64) -> bool {
        true
    }

    open spec fn wire(v: u64) -> Seq<u8> {
        le_bytes_u64(v)
    }

    open spec fn parse(input: Seq<u8>) -> Option<(u64, nat)> {
        if input.len() >= 8 {
            Some((u64_of_le_bytes(input), 8nat))
        } else {
            None
        }
    }

    proof fn lemma_parse_wire(v: u64, rest: Seq<u8>) {
        lemma_u64_read_written(v);
        let written = le_bytes_u64(v);
        let input = written + rest;
        assert(written.len() == 8);
        assert(input.take(8) =~= written);
        lemma_u64_of_prefix(input);
        assert(u64_of_le_bytes(input) == v);
        assert(input.len() >= 8);
        assert(Self::parse(input) == Some((v, 8nat)));
        assert(Self::wire(v) == written);
        assert(Self::wire(v) + rest == input);
        assert(Self::wire(v).len() == 8nat);
    }

    proof fn lemma_wire_parse(input: Seq<u8>) {
        if input.len() >= 8 {
            lemma_u64_of_prefix(input);
            lemma_u64_written_read(input.take(8));
        }
    }

    fn encode(&self, out: &mut Vec<u8>) {
        put_u64(out, *self);
    }

    fn decode(input: &[u8], start: usize) -> (r: Option<(Self, usize)>) {
        if input.len() - start >= 8 {
            Some((get_u64(input, start), start + 8))
        } else {
            None
        }
    }
}

/// Only the first four bytes count when a `u32` is read.
pub proof fn lemma_u32_of_prefix(input: Seq<u8>)
    requires
        input.len() >= 4,
    ensures
        u32_of_le_bytes(input) == u32_of_le_bytes(input.take(4)),
{
}

/// Only the first eight bytes count when a `u64` is read.
pub proof fn lemma_u64_of_prefix(input: Seq<u8>)
    requires
        input.len() >= 8,
    ensures
        u64_of_le_bytes(input) == u64_of_le_bytes(input.take(8)),
{
    assert(input.skip(4).take(4) =~= input.take(8).skip(4));
    lemma_u32_of_prefix(input.skip(4));
    lemma_u32_of_prefix(input.take(8).skip(4));
    assert(input.take(8).skip(4).take(4) =~= input.take(8).skip(4));
}

impl Wire for i32 {
    open spec fn fits(v: i32) -> bool {
        true
    }

    open spec fn wire(v: i32) -> Seq<u8> {
        le_bytes_u32(bits_of_i32(v))
    }

    open spec fn parse(input: Seq<u8>) -> Option<(i32, nat)> {
        if input.len() >= 4 {
            Some((i32_of_bits(u32_of_le_bytes(input)), 4nat))
        } else {
            None
        }
    }

    proof fn lemma_parse_wire(v: i32, rest: Seq<u8>) {
        let bits = bits_of_i32(v);
        lemma_u32_read_written(bits);
        lemma_bits_inverse(v, 0, 0, 0);
        let input = le_bytes_u32(bits) + rest;
        lemma_u32_of_prefix(input);
        assert(input.take(4) =~= le_bytes_u32(bits));
    }

    proof fn lemma_wire_parse(input: Seq<u8>) {
        if input.len() >= 4 {
            lemma_u32_of_prefix(input);
            lemma_u32_written_read(input.take(4));
            lemma_bits_inverse(0, u32_of_le_bytes(input), 0, 0);
        }
    }

    fn encode(&self, out: &mut Vec<u8>) {
        put_u32(out, i32_bits(*self));
    }

    fn decode(input: &[u8], start: usize) -> (r: Option<(Self, usize)>) {
        if input.len() - start >= 4 {
            Some((i32_from_bits(get_u32(input, start)), start + 4))
        } else {
            None
        }
    }
}

impl Wire for i64 {
    open spec fn fits(v: i64) -> bool {
        true
    }

    open spec fn wire(v: i64) -> Seq<u8> {
        le_bytes_u64(bits_of_i64(v))
    }

    open spec fn parse(input: Seq<u8>) -> Option<(i64, nat)> {
        if input.len() >= 8 {
            Some((i64_of_bits(u64_of_le_bytes(input)), 8nat))
        } else {
            None
        }
    }

    proof fn lemma_parse_wire(v: i64, rest: Seq<u8>) {
        lemma_bits_inverse(0, 0, v, 0);
        u64::lemma_parse_wire(bits_of_i64(v), rest);
    }

    proof fn lemma_wire_parse(input: Seq<u8>) {
        if input.len() >= 8 {
            u64::lemma_wire_parse(input);
            lemma_bits_inverse(0, 0, 0, u64_of_le_bytes(input));
        }
    }

    fn encode(&self, out: &mut Vec<u8>) {
        put_u64(out, i64_bits(*self));
    }

    fn decode(input: &[u8], start: usize) -> (r: Option<(Self, usize)>) {
        if input.len() - start >= 8 {
            Some((i64_from_bits(get_u64(input, start)), start + 8))
        } else {
            None
        }
    }
}

impl<A: Wire, B: Wire> Wire for (A, B) {
    open spec fn fits(v: (A::V, B::V)) -> bool {
        A::fits(v.0) && B::fits(v.1)
    }

    open spec fn wire(v: (A::V, B::V)) -> Seq<u8> {
        A::wire(v.0) + B::wire(v.1)
    }

    open spec fn parse(input: Seq<u8>) -> Option<((A::V, B::V), nat)> {
        match A::parse(input) {
            Some((a, taken_a)) => match B::parse(input.skip(taken_a as int)) {
                Some((b, taken_b)) => Some(((a, b), taken_a + taken_b)),
                None => None,
            },
            None => None,
        }
    }

    proof fn lemma_parse_wire(v: (A::V, B::V), rest: Seq<u8>) {
        let first = A::wire(v.0);
        let second = B::wire(v.1);
        A::lemma_parse_wire(v.0, second + rest);
        B::lemma_parse_wire(v.1, rest);
        assert((first + second) + rest =~= first + (second + rest));
        assert((first + (second + rest)).skip(first.len() as int) =~= second + rest);
    }

    proof fn lemma_wire_parse(input: Seq<u8>) {
        A::lemma_wire_parse(input);
        match A::parse(input) {
            Some((a, taken_a)) => {
                B::lemma_wire_parse(input.skip(taken_a as int));
                match B::parse(input.skip(taken_a as int)) {
                    Some((b, taken_b)) => {
                        assert(input.take(taken_a + taken_b as int) =~= input.take(taken_a as int)
                            + input.skip(taken_a as int).take(taken_b as int));
                    },
                    None => {},
                }
            },
            None => {},
        }
    }

    fn encode(&self, out: &mut Vec<u8>) {
        self.0.encode(out);
        self.1.encode(out);
        assert(out@ =~= old(out)@ + Self::wire(self.deep_view()));
    }

    fn decode(input: &[u8], start: usize) -> (r: Option<(Self, usize)>) {
        match A::decode(input, start) {
            Some((a, middle)) => {
                assert(input@.skip(start as int).skip(middle - start) =~= input@.skip(
                    middle as int,
                ));
                match B::decode(input, middle) {
                    Some((b, end)) => Some(((a, b), end)),
                    None => None,
                }
            },
            None => None,
        }
    }
}

impl<T: Wire> Wire for Option<T> {
    open spec fn fits(v: Option<T::V>) -> bool {
        match v {
            Some(inner) => T::fits(inner),
            None => true,
        }
    }

    open spec fn wire(v: Option<T::V>) -> Seq<u8> {
        match v {
            Some(inner) => seq![1u8] + T::wire(inner),
            None => seq![0u8],
        }
    }

    open spec fn parse(input: Seq<u8>) -> Option<(Option<T::V>, nat)> {
        if input.len() == 0 {
            None
        } else if input[0] == 0 {
            Some((None, 1nat))
        } else if input[0] == 1 {
            match T::parse(input.skip(1)) {
                Some((inner, taken)) => Some((Some(inner), taken + 1)),
                None => None,
            }
        } else {
            None
        }
    }

    proof fn lemma_parse_wire(v: Option<T::V>, rest: Seq<u8>) {
        let input = Self::wire(v) + rest;
        match v {
            Some(inner) => {
                T::lemma_parse_wire(inner, rest);
                assert(input[0] == 1);
                assert(input.skip(1) =~= T::wire(inner) + rest);
            },
            None => {
                assert(input[0] == 0);
            },
        }
    }

    proof fn lemma_wire_parse(input: Seq<u8>) {
        if input.len() == 0 {
        } else if input[0] == 0 {
            assert(seq![0u8] =~= input.take(1));
        } else if input[0] == 1 {
            T::lemma_wire_parse(input.skip(1));
            match T::parse(input.skip(1)) {
                Some((inner, taken)) => {
                    assert(input.take(taken + 1 as int) =~= seq![1u8] + input.skip(1).take(
                        taken as int,
                    ));
                },
                None => {},
            }
        }
    }

    fn encode(&self, out: &mut Vec<u8>) {
        match self {
            Some(inner) => {
                out.push(1);
                inner.encode(out);
                assert(out@ =~= old(out)@ + (seq![1u8] + T::wire(inner.deep_view())));
            },
            None => {
                out.push(0);
                assert(out@ =~= old(out)@ + seq![0u8]);
            },
        }
    }

    fn decode(input: &[u8], start: usize) -> (r: Option<(Self, usize)>) {
        if start >= input.len() {
            return None;
        }
        let tag: u8 = input[start];
        assert(input@.skip(start as int)[0] == tag);
        if tag == 0 {
            Some((None, start + 1))
        } else if tag == 1 {
            assert(input@.skip(start as int).skip(1) =~= input@.skip(start + 1));
            match T::decode(input, start + 1) {
                Some((inner, end)) => Some((Some(inner), end)),
                None => None,
            }
        } else {
            None
        }
    }
}

} // verus!
