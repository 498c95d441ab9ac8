//! Unsigned lengths in a variable number of bytes.
//!
//! A number is cut into groups of seven bits, lowest group first. Every
//! byte but the last has its top bit set. A number has one encoding only:
//! the last byte of an encoding of two bytes or more is never zero.

use vstd::prelude::*;

verus! {

/// The bytes that stand for `n`.
pub open spec fn varint(n: nat) -> Seq<u8>
    decreases n,
{
    if n < 128 {
        seq![n as u8]
    } else {
        seq![(n % 128 + 128) as u8] + varint(n / 128)
    }
}

/// The number at the head of `input` and the count of bytes it takes, if
/// `input` starts with the encoding of a number.
pub open spec fn parse_varint(input: Seq<u8>) -> Option<(nat, nat)>
    decreases input.len(),
{
    if input.len() == 0 {
        None
    } else if input[0] < 128 {
        Some((input[0] as nat, 1nat))
    } else {
        match parse_varint(input.skip(1)) {
            Some((high, taken)) => if high == 0 {
                None
            } else {
                Some(((input[0] - 128 + 128 * high) as nat, taken + 1))
            },
            None => None,
        }
    }
}

/// The length at the head of `input`: a number that fits in 64 bits.
pub open spec fn parse_len(input: Seq<u8>) -> Option<(nat, nat)> {
    match parse_varint(input) {
        Some((n, taken)) => if n <= u64::MAX {
            Some((n, taken))
        } else {
            None
        },
        None => None,
    }
}

/// 128 to the power `k`.
pub open spec fn pow128(k: nat) -> nat
    decreases k,
{
    if k == 0 {
        1
    } else {
        128 * pow128((k - 1) as nat)
    }
}

/// An encoding is never empty.
pub proof fn lemma_varint_len(n: nat)
    ensures
        varint(n).len() >= 1,
    decreases n,
{
    if n >= 128 {
        lemma_varint_len(n / 128);
    }
}

/// Parsing what was written for `n` gives `n`, whatever follows.
pub proof fn lemma_parse_varint(n: nat, rest: Seq<u8>)
    ensures
        parse_varint(varint(n) + rest) == Some((n, varint(n).len())),
    decreases n,
{
    let input = varint(n) + rest;
    if n < 128 {
        assert(input[0] == n as u8);
    } else {
        lemma_parse_varint(n / 128, rest);
        assert(input[0] == (n % 128 + 128) as u8);
        assert(input.skip(1) =~= varint(n / 128) + rest);
    }
}

/// What parses as `n` is the encoding of `n`.
pub proof fn lemma_varint_parsed(input: Seq<u8>)
    ensures
        parse_varint(input) matches Some((n, taken)) ==> 1 <= taken <= input.len() && varint(n)
            == input.take(taken as int),
    decreases input.len(),
{
    if input.len() == 0 {
    } else if input[0] < 128 {
        assert(varint(input[0] as nat) =~= input.take(1));
    } else {
        lemma_varint_parsed(input.skip(1));
        match parse_varint(input.skip(1)) {
            Some((high, taken)) => {
                if high != 0 {
                    let n = (input[0] - 128 + 128 * high) as nat;
                    assert(n % 128 + 128 == input[0]);
                    assert(n / 128 == high);
                    assert(input.take(taken + 1 as int) =~= seq![input[0]] + input.skip(1).take(
                        taken as int,
                    ));
                }
            },
            None => {},
        }
    }
}

/// Appends the encoding of `n` to `out`.
pub fn put_varint(out: &mut Vec<u8>, n: u64)
    ensures
        final(out)@ == old(out)@ + varint(n as nat),
{
    let mut left: u64 = n;
    while left >= 128
        invariant
            out@ + varint(left as nat) == old(out)@ + varint(n as nat),
        decreases left,
    {
        let ghost before = out@;
        out.push((left % 128 + 128) as u8);
        proof {
            assert(before + varint(left as nat) =~= before.push((left % 128 + 128) as u8) + varint(
                (left / 128) as nat,
            ));
        }
        left = left / 128;
    }
    let ghost before = out@;
    out.push(left as u8);
    proof {
        assert(before.push(left as u8) =~= before + varint(left as nat));
    }
}

/// Reads the length that stands at `at`, `depth` bytes into an encoding.
fn get_varint_from(input: &[u8], at: usize, depth: u8) -> (r: Option<(u64, usize)>)
    requires
        at <= input@.len(),
        depth <= 10,
    ensures
        match r {
            Some((n, end)) => at < end <= input@.len() && parse_varint(input@.skip(at as int))
                == Some((n as nat, (end - at) as nat)),
            None => parse_varint(input@.skip(at as int)) matches Some((n, taken)) ==> (depth > 0
                && n == 0) || n * pow128(depth as nat) > u64::MAX,
        },
    decreases 10 - depth,
{
    let ghost tail = input@.skip(at as int);
    proof {
        lemma_pow128_positive(depth as nat);
    }
    if at >= input.len() {
        return None;
    }
    let first: u8 = input[at];
    assert(tail[0] == first);
    if first < 128 {
        return Some((first as u64, at + 1));
    }
    if depth >= 10 {
        proof {
            reveal_with_fuel(pow128, 11);
            match parse_varint(tail) {
                Some((n, taken)) => {
                    assert(n >= 1 ==> n * pow128(10) > u64::MAX) by (nonlinear_arith)
                        requires
                            pow128(10) > u64::MAX,
                    ;
                },
                None => {},
            }
        }
        return None;
    }
    assert(tail.skip(1) =~= input@.skip(at + 1));
    let group: u64 = (first - 128) as u64;
    match get_varint_from(input, at + 1, depth + 1) {
        Some((high, end)) => {
            if high == 0 {
                None
            } else if high > (u64::MAX - group) / 128 {
                proof {
                    let n = (group + 128 * high) as nat;
                    assert(n > u64::MAX);
                    assert(n * pow128(depth as nat) > u64::MAX) by (nonlinear_arith)
                        requires
                            n > u64::MAX,
                            pow128(depth as nat) >= 1,
                    ;
                }
                None
            } else {
                Some((group + 128 * high, end))
            }
        },
        None => {
            proof {
                match parse_varint(tail.skip(1)) {
                    Some((high, taken)) => {
                        if high != 0 {
                            let n = (group + 128 * high) as nat;
                            let p = pow128(depth as nat);
                            assert(pow128((depth + 1) as nat) == 128 * p);
                            assert(n * p > u64::MAX) by (nonlinear_arith)
                                requires
                                    n == group + 128 * high,
                                    high * (128 * p) > u64::MAX,
                                    p >= 1,
                                    group >= 0,
                            ;
                        }
                    },
                    None => {},
                }
            }
            None
        },
    }
}

/// A power of 128 is at least one.
proof fn lemma_pow128_positive(k: nat)
    ensures
        pow128(k) >= 1,
    decreases k,
{
    if k > 0 {
        lemma_pow128_positive((k - 1) as nat);
    }
}

/// Reads the length that stands at `at`: `None` where no length stands
/// there or it does not fit in 64 bits.
pub fn get_varint(input: &[u8], at: usize) -> (r: Option<(u64, usize)>)
    requires
        at <= input@.len(),
    ensures
        match r {
            Some((n, end)) => at < end <= input@.len() && parse_len(input@.skip(at as int))
                == Some((n as nat, (end - at) as nat)),
            None => parse_len(input@.skip(at as int)) is None,
        },
{
    let r = get_varint_from(input, at, 0);
    proof {
        assert(pow128(0) == 1);
        match parse_varint(input@.skip(at as int)) {
            Some((n, taken)) => {
                assert(n * pow128(0) == n);
            },
            None => {},
        }
    }
    r
}

} // verus!
