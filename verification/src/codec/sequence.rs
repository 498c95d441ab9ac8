//! The wire form of sequences and of text: a length, then the items.

use vstd::prelude::*;
use vstd::slice::{slice_subrange, slice_to_vec};
use vstd::utf8::{
    decode_utf8, decode_utf8_encode_utf8, encode_utf8, encode_utf8_decode_utf8,
    encode_utf8_valid_utf8, valid_utf8,
};
use crate::codec::varint::{
    get_varint, lemma_parse_varint, lemma_varint_len, lemma_varint_parsed, parse_len,
    parse_varint, put_varint, varint,
};
use crate::codec::wire::Wire;

verus! {

/// The wire forms of `items`, one after the other.
pub open spec fn wire_items<T: Wire>(items: Seq<T::V>) -> Seq<u8>
    decreases items.len(),
{
    if items.len() == 0 {
        Seq::empty()
    } else {
        T::wire(items[0]) + wire_items::<T>(items.skip(1))
    }
}

/// Whether every one of `items` can be written.
pub open spec fn fit_items<T: Wire>(items: Seq<T::V>) -> bool {
    forall|i: int| 0 <= i < items.len() ==> T::fits(#[trigger] items[i])
}

/// The `count` values at the head of `input` and the bytes they take.
pub open spec fn parse_items<T: Wire>(input: Seq<u8>, count: nat) -> Option<(Seq<T::V>, nat)>
    decreases count,
{
    if count == 0 {
        Some((Seq::empty(), 0nat))
    } else {
        match T::parse(input) {
            Some((first, taken)) => match parse_items::<T>(
                input.skip(taken as int),
                (count - 1) as nat,
            ) {
                Some((others, more)) => Some((seq![first] + others, taken + more)),
                None => None,
            },
            None => None,
        }
    }
}

/// Writing one more item appends its wire form.
pub proof fn lemma_wire_items_push<T: Wire>(items: Seq<T::V>, last: T::V)
    ensures
        wire_items::<T>(items.push(last)) == wire_items::<T>(items) + T::wire(last),
    decreases items.len(),
{
    let all = items.push(last);
    if items.len() == 0 {
        assert(all.skip(1) =~= Seq::<T::V>::empty());
        assert(wire_items::<T>(all.skip(1)) =~= Seq::<u8>::empty());
        assert(wire_items::<T>(all) =~= T::wire(last));
        assert(wire_items::<T>(items) + T::wire(last) =~= T::wire(last));
    } else {
        lemma_wire_items_push::<T>(items.skip(1), last);
        assert(all.skip(1) =~= items.skip(1).push(last));
        assert(wire_items::<T>(all) =~= wire_items::<T>(items) + T::wire(last));
    }
}

/// Parsing what was written for `items` gives `items`, whatever follows.
pub proof fn lemma_parse_items<T: Wire>(items: Seq<T::V>, rest: Seq<u8>)
    requires
        fit_items::<T>(items),
    ensures
        parse_items::<T>(wire_items::<T>(items) + rest, items.len()) == Some(
            (items, wire_items::<T>(items).len()),
        ),
    decreases items.len(),
{
    if items.len() == 0 {
    } else {
        let first = T::wire(items[0]);
        let others = wire_items::<T>(items.skip(1));
        T::lemma_parse_wire(items[0], others + rest);
        assert forall|i: int| 0 <= i < items.skip(1).len() implies T::fits(
            #[trigger] items.skip(1)[i],
        ) by {
            assert(items.skip(1)[i] == items[i + 1]);
        }
        lemma_parse_items::<T>(items.skip(1), rest);
        assert((first + others) + rest =~= first + (others + rest));
        assert((first + (others + rest)).skip(first.len() as int) =~= others + rest);
        assert(seq![items[0]] + items.skip(1) =~= items);
    }
}

/// What parses as `count` items is their wire form, and takes at least one
/// byte for each.
pub proof fn lemma_items_parsed<T: Wire>(input: Seq<u8>, count: nat)
    ensures
        parse_items::<T>(input, count) matches Some((items, taken)) ==> items.len() == count
            && fit_items::<T>(items) && count <= taken <= input.len() && wire_items::<T>(items)
            == input.take(taken as int),
    decreases count,
{
    if count == 0 {
        assert(input.take(0) =~= Seq::<u8>::empty());
    } else {
        T::lemma_wire_parse(input);
        match T::parse(input) {
            Some((first, taken)) => {
                let tail = input.skip(taken as int);
                lemma_items_parsed::<T>(tail, (count - 1) as nat);
                match parse_items::<T>(tail, (count - 1) as nat) {
                    Some((others, more)) => {
                        let items = seq![first] + others;
                        assert(items.skip(1) =~= others);
                        assert(input.take(taken + more as int) =~= input.take(taken as int)
                            + tail.take(more as int));
                    },
                    None => {},
                }
            },
            None => {},
        }
    }
}

impl<T: Wire> Wire for Vec<T> {
    open spec fn fits(v: Seq<T::V>) -> bool {
        v.len() <= u64::MAX && fit_items::<T>(v)
    }

    open spec fn wire(v: Seq<T::V>) -> Seq<u8> {
        varint(v.len()) + wire_items::<T>(v)
    }

    open spec fn parse(input: Seq<u8>) -> Option<(Seq<T::V>, nat)> {
        match parse_len(input) {
            Some((count, head)) => match parse_items::<T>(input.skip(head as int), count) {
                Some((items, body)) => Some((items, head + body)),
                None => None,
            },
            None => None,
        }
    }

    proof fn lemma_parse_wire(v: Seq<T::V>, rest: Seq<u8>) {
        let head = varint(v.len());
        let body = wire_items::<T>(v);
        lemma_parse_varint(v.len(), body + rest);
        lemma_parse_items::<T>(v, rest);
        assert((head + body) + rest =~= head + (body + rest));
        assert((head + (body + rest)).skip(head.len() as int) =~= body + rest);
    }

    proof fn lemma_wire_parse(input: Seq<u8>) {
        lemma_varint_parsed(input);
        match parse_len(input) {
            Some((count, head)) => {
                let tail = input.skip(head as int);
                lemma_items_parsed::<T>(tail, count);
                match parse_items::<T>(tail, count) {
                    Some((items, body)) => {
                        assert(input.take(head + body as int) =~= input.take(head as int)
                            + tail.take(body as int));
                    },
                    None => {},
                }
            },
            None => {},
        }
    }

    fn encode(&self, out: &mut Vec<u8>) {
        let ghost model = self.deep_view();
        let count = self.len();
        put_varint(out, count as u64);
        let ghost headed = out@;
        let mut i: usize = 0;
        while i < count
            invariant
                i <= count,
                count == self.len(),
                model == self.deep_view(),
                model.len() == count,
                out@ == headed + wire_items::<T>(model.take(i as int)),
                forall|j: int| 0 <= j < i ==> T::fits(#[trigger] model[j]),
            decreases count - i,
        {
            let ghost before = out@;
            self[i].encode(out);
            proof {
                assert(model[i as int] == self[i as int].deep_view());
                lemma_wire_items_push::<T>(model.take(i as int), model[i as int]);
                assert(model.take(i + 1) =~= model.take(i as int).push(model[i as int]));
                assert(out@ =~= headed + wire_items::<T>(model.take(i + 1)));
            }
            i += 1;
        }
        proof {
            assert(model.take(count as int) =~= model);
            assert(out@ =~= old(out)@ + Self::wire(model));
        }
    }

    fn decode(input: &[u8], start: usize) -> (r: Option<(Self, usize)>) {
        let ghost whole = input@.skip(start as int);
        match get_varint(input, start) {
            None => None,
            Some((count, body_start)) => {
                let ghost body = input@.skip(body_start as int);
                proof {
                    assert(whole.skip(body_start - start) =~= body);
                    lemma_items_parsed::<T>(body, count as nat);
                }
                if count > (input.len() - body_start) as u64 {
                    return None;
                }
                let mut items: Vec<T> = Vec::new();
                let mut at: usize = body_start;
                let mut i: u64 = 0;
                while i < count
                    invariant
                        i <= count,
                        items.len() == i,
                        body_start <= at <= input@.len(),
                        start <= body_start,
                        body == input@.skip(body_start as int),
                        whole == input@.skip(start as int),
                        whole.skip(body_start - start) == body,
                        parse_len(whole) == Some((count as nat, (body_start - start) as nat)),
                        i > 0 ==> at > body_start,
                        parse_items::<T>(body, count as nat) == match parse_items::<T>(
                            input@.skip(at as int),
                            (count - i) as nat,
                        ) {
                            Some((others, more)) => Some(
                                (items.deep_view() + others, ((at - body_start) + more) as nat),
                            ),
                            None => None,
                        },
                    decreases count - i,
                {
                    let ghost here = input@.skip(at as int);
                    let ghost done = items.deep_view();
                    match T::decode(input, at) {
                        None => {
                            return None;
                        },
                        Some((item, next)) => {
                            items.push(item);
                            proof {
                                assert(here.skip(next - at) =~= input@.skip(next as int));
                                assert(items.deep_view() =~= done.push(item.deep_view()));
                                match parse_items::<T>(
                                    input@.skip(next as int),
                                    (count - i - 1) as nat,
                                ) {
                                    Some((others, more)) => {
                                        assert(done + (seq![item.deep_view()] + others)
                                            =~= items.deep_view() + others);
                                    },
                                    None => {},
                                }
                            }
                            at = next;
                            i += 1;
                        },
                    }
                }
                proof {
                    assert(items.deep_view() + Seq::<T::V>::empty() =~= items.deep_view());
                    if count == 0 {
                        assert(at == body_start);
                    }
                }
                Some((items, at))
            },
        }
    }
}

/// Appends `bytes` to `out`.
pub fn put_bytes(out: &mut Vec<u8>, bytes: &[u8])
    ensures
        final(out)@ == old(out)@ + bytes@,
{
    let mut i: usize = 0;
    while i < bytes.len()
        invariant
            i <= bytes.len(),
            out@ == old(out)@ + bytes@.take(i as int),
        decreases bytes.len() - i,
    {
        out.push(bytes[i]);
        proof {
            assert(out@ =~= old(out)@ + bytes@.take(i + 1));
        }
        i += 1;
    }
    proof {
        assert(bytes@.take(i as int) =~= bytes@);
    }
}

/// `String::from_utf8` of the standard library: the text that `bytes` spell
/// in UTF-8, and `None` exactly where they spell none.
#[verifier::external_body]
fn text_from_utf8(bytes: Vec<u8>) -> (r: Option<String>)
    ensures
        r is Some <==> valid_utf8(bytes@),
        r matches Some(text) ==> text@ == decode_utf8(bytes@),
{
    String::from_utf8(bytes).ok()
}

impl Wire for String {
    open spec fn fits(v: Seq<char>) -> bool {
        encode_utf8(v).len() <= u64::MAX
    }

    open spec fn wire(v: Seq<char>) -> Seq<u8> {
        varint(encode_utf8(v).len()) + encode_utf8(v)
    }

    open spec fn parse(input: Seq<u8>) -> Option<(Seq<char>, nat)> {
        match parse_len(input) {
            Some((count, head)) => if head + count <= input.len() && valid_utf8(
                input.subrange(head as int, (head + count) as int),
            ) {
                Some((decode_utf8(input.subrange(head as int, (head + count) as int)), head + count))
            } else {
                None
            },
            None => None,
        }
    }

    proof fn lemma_parse_wire(v: Seq<char>, rest: Seq<u8>) {
        let text = encode_utf8(v);
        let head = varint(text.len());
        lemma_parse_varint(text.len(), text + rest);
        encode_utf8_valid_utf8(v);
        encode_utf8_decode_utf8(v);
        let input = (head + text) + rest;
        assert(input =~= head + (text + rest));
        assert(input.subrange(head.len() as int, (head.len() + text.len()) as int) =~= text);
    }

    proof fn lemma_wire_parse(input: Seq<u8>) {
        lemma_varint_parsed(input);
        match parse_len(input) {
            Some((count, head)) => {
                if head + count <= input.len() {
                    let text = input.subrange(head as int, (head + count) as int);
                    if valid_utf8(text) {
                        decode_utf8_encode_utf8(text);
                        assert(input.take(head + count as int) =~= input.take(head as int) + text);
                    }
                }
            },
            None => {},
        }
    }

    fn encode(&self, out: &mut Vec<u8>) {
        let bytes = self.as_str().as_bytes();
        put_varint(out, bytes.len() as u64);
        put_bytes(out, bytes);
        proof {
            assert(out@ =~= old(out)@ + Self::wire(self@));
        }
    }

    fn decode(input: &[u8], start: usize) -> (r: Option<(Self, usize)>) {
        let ghost whole = input@.skip(start as int);
        match get_varint(input, start) {
            None => None,
            Some((count, body_start)) => {
                if count > (input.len() - body_start) as u64 {
                    return None;
                }
                let end: usize = body_start + count as usize;
                let bytes = slice_to_vec(slice_subrange(input, body_start, end));
                proof {
                    assert(bytes@ =~= whole.subrange(
                        body_start - start,
                        (body_start - start) + count,
                    ));
                }
                match text_from_utf8(bytes) {
                    Some(text) => Some((text, end)),
                    None => None,
                }
            },
        }
    }
}

} // verus!
