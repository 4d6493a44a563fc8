//! What holds of the codec as a whole: a value that is encoded and decoded
//! again is the value that went in.

use crate::bencode::error::ErrorView;
use crate::bencode::grammar::{
    decode, decode_all, decode_elements, decode_entries, decode_fields, decode_tuple, find_variant,
    lemma_decode_shrinks, lemma_next_key_shrinks, next_key, option_depth, value_token,
};
use crate::bencode::reader::{
    lemma_first_index_is, spec_advance, spec_peek_token, spec_read_bytes, spec_read_i64,
    spec_read_string, spec_read_until,
};
use crate::bencode::tokens::{Token, TOKEN_DELIM, TOKEN_DICT, TOKEN_END, TOKEN_INTEGER, TOKEN_LIST};
use crate::bencode::value::{
    encode, encode_entries, encode_entry, encode_fields, encode_items, within, ShapeView,
    ValueView,
};
use crate::bencode::writer::{byte_string_bytes, integer_bytes};
use crate::text::{
    decimal, decimal_digits, lemma_ascii_utf8, lemma_decimal_digits, lemma_decimal_i64,
    lemma_decimal_u64,
};
use vstd::prelude::*;
use vstd::utf8::{encode_utf8, encode_utf8_decode_utf8, encode_utf8_valid_utf8};

verus! {

/// The length of a byte string can be written as its prefix.
pub open spec fn fits(bytes: Seq<u8>) -> bool {
    bytes.len() <= u64::MAX
}

/// No two fields of the record shape have one name.
pub open spec fn distinct_names(fields: Seq<(Seq<char>, ShapeView)>) -> bool {
    forall|i: int, j: int|
        0 <= i < j < fields.len() ==> (#[trigger] fields[i]).0 != (#[trigger] fields[j]).0
}

/// The value is one that a decode of the shape can yield.
///
/// An unsigned integer has to lie in the signed range, in which the wire
/// holds it; a byte string, a text, a field name and a tag have to be short
/// enough for a length prefix. A list has to hold one item for each position
/// of a tuple. A record has to hold the fields of its shape, in their order
/// and under names that differ, and only an optional field may be absent. A
/// variant has to carry a payload exactly if the first variant of its tag
/// has one. An absent value stands nowhere else, and a present one only
/// where the shape is optional.
pub open spec fn conforms(v: ValueView, shape: ShapeView) -> bool
    decreases v,
{
    match shape {
        ShapeView::Any => match v {
            ValueView::Int(_) => true,
            ValueView::Bytes(b) => fits(b),
            ValueView::List(items) => forall|i: int|
                0 <= i < items.len() ==> conforms(#[trigger] items[i], ShapeView::Any),
            ValueView::Dict(entries) => forall|i: int|
                0 <= i < entries.len() ==> conforms((#[trigger] entries[i]).0, ShapeView::Any)
                    && conforms(entries[i].1, ShapeView::Any),
            _ => false,
        },
        ShapeView::Int => v is Int,
        ShapeView::UInt => v matches ValueView::UInt(u) && u <= i64::MAX,
        ShapeView::Bytes => v matches ValueView::Bytes(b) && fits(b),
        ShapeView::Text => v matches ValueView::Text(t) && fits(encode_utf8(t)),
        ShapeView::Optional(inner) => v matches ValueView::Present(p) && conforms(*p, *inner),
        ShapeView::List(element) => v matches ValueView::List(items) && forall|i: int|
            0 <= i < items.len() ==> conforms(#[trigger] items[i], *element),
        ShapeView::Tuple(shapes) => v matches ValueView::List(items) && items.len()
            == shapes.len() && forall|i: int|
            0 <= i < items.len() ==> conforms(#[trigger] items[i], shapes[i]),
        ShapeView::Dict(key, value) => v matches ValueView::Dict(entries) && forall|i: int|
            0 <= i < entries.len() ==> conforms((#[trigger] entries[i]).0, *key) && conforms(
                entries[i].1,
                *value,
            ),
        ShapeView::Record(fields) => v matches ValueView::Record(values) && values.len()
            == fields.len() && distinct_names(fields) && forall|i: int|
            0 <= i < values.len() ==> {
                &&& (#[trigger] values[i]).0 == fields[i].0
                &&& fits(encode_utf8(fields[i].0))
                &&& (values[i].1 is Absent && fields[i].1 is Optional) || conforms(
                    values[i].1,
                    fields[i].1,
                )
            },
        ShapeView::Enum(variants) => v matches ValueView::Variant(tag, carried) && fits(
            encode_utf8(tag),
        ) && match (find_variant(variants, tag), carried) {
            (Some(None), None) => true,
            (Some(Some(shape)), Some(p)) => conforms(*p, shape),
            _ => false,
        },
    }
}

/// A read up to a delimiter that stands after `head`, which holds none,
/// yields `head` and leaves what follows the delimiter.
pub proof fn lemma_read_until_found(head: Seq<u8>, delim: u8, tail: Seq<u8>, missing: ErrorView)
    requires
        forall|i: int| 0 <= i < head.len() ==> head[i] != delim,
    ensures
        spec_read_until(head + seq![delim] + tail, delim, missing) == (
            Ok::<Seq<u8>, ErrorView>(head),
            tail,
        ),
{
    let s = head + seq![delim] + tail;
    lemma_first_index_is(s, delim, head.len() as int);
    assert(s.take(head.len() as int) =~= head);
    assert(s.skip(head.len() as int + 1) =~= tail);
}

/// The numeral of an integer, closed by `e`, is read back as the integer.
pub proof fn lemma_read_i64_round_trip(v: i64, tail: Seq<u8>)
    ensures
        spec_read_i64(decimal(v as int) + seq![TOKEN_END] + tail) == (
            Ok::<i64, ErrorView>(v),
            tail,
        ),
{
    lemma_decimal_i64(v);
    lemma_ascii_utf8(decimal(v as int));
    lemma_read_until_found(decimal(v as int), TOKEN_END, tail, ErrorView::ExpectedEnd);
}

/// A byte string on the wire is read back as its bytes.
pub proof fn lemma_read_bytes_round_trip(bytes: Seq<u8>, tail: Seq<u8>)
    requires
        fits(bytes),
    ensures
        spec_read_bytes(byte_string_bytes(bytes) + tail) == (Ok::<Seq<u8>, ErrorView>(bytes), tail),
        spec_peek_token(byte_string_bytes(bytes) + tail) == Ok::<Token, ErrorView>(Token::Bytes),
{
    let n = bytes.len();
    let digits = decimal_digits(n);
    lemma_decimal_digits(n);
    lemma_decimal_u64(n as u64);
    lemma_ascii_utf8(digits);
    let s = byte_string_bytes(bytes) + tail;
    assert(s =~= digits + seq![TOKEN_DELIM] + (bytes + tail));
    lemma_read_until_found(digits, TOKEN_DELIM, bytes + tail, ErrorView::ExpectedDelimiter);
    assert((bytes + tail).take(n as int) =~= bytes);
    assert((bytes + tail).skip(n as int) =~= tail);
    assert(s[0] == digits[0]);
}

/// A text on the wire is read back as the text.
pub proof fn lemma_read_string_round_trip(text: Seq<char>, tail: Seq<u8>)
    requires
        fits(encode_utf8(text)),
    ensures
        spec_read_string(byte_string_bytes(encode_utf8(text)) + tail) == (
            Ok::<Seq<char>, ErrorView>(text),
            tail,
        ),
        spec_peek_token(byte_string_bytes(encode_utf8(text)) + tail) == Ok::<Token, ErrorView>(
            Token::Bytes,
        ),
{
    lemma_read_bytes_round_trip(encode_utf8(text), tail);
    encode_utf8_valid_utf8(text);
    encode_utf8_decode_utf8(text);
}

/// A decode that succeeds began at a token, and not at the end token.
pub proof fn lemma_decode_begins_at_token(shape: ShapeView, s: Seq<u8>, depth: nat)
    requires
        decode(shape, s, depth).0 is Ok,
    ensures
        value_token(s) is Ok,
    decreases option_depth(shape),
{
    match shape {
        ShapeView::Optional(inner) => {
            lemma_decode_begins_at_token(*inner, s, (depth - 1) as nat);
        },
        _ => {},
    }
}

/// An integer on the wire is decoded as the integer.
proof fn lemma_integer(v: i64, tail: Seq<u8>)
    ensures
        spec_peek_token(integer_bytes(v as int) + tail) == Ok::<Token, ErrorView>(Token::Int),
        spec_read_i64(spec_advance(integer_bytes(v as int) + tail)) == (
            Ok::<i64, ErrorView>(v),
            tail,
        ),
{
    let s = integer_bytes(v as int) + tail;
    assert(s[0] == TOKEN_INTEGER);
    assert(s.skip(1) =~= decimal(v as int) + seq![TOKEN_END] + tail);
    lemma_read_i64_round_trip(v, tail);
}

/// **Round trip.** A value that conforms to a shape and nests no deeper
/// than the decoder follows it, encoded and decoded by that shape, is the
/// value again, and what followed its encoding is left unread.
pub proof fn lemma_round_trip(shape: ShapeView, v: ValueView, tail: Seq<u8>, depth: nat)
    requires
        conforms(v, shape),
        within(v, depth),
    ensures
        decode(shape, encode(v) + tail, depth) == (Ok::<ValueView, ErrorView>(v), tail),
    decreases v, 0nat,
{
    let s = encode(v) + tail;
    reveal_with_fuel(decode, 2);
    match v {
        ValueView::Int(i) => {
            lemma_integer(i, tail);
        },
        ValueView::UInt(u) => {
            lemma_integer(u as i64, tail);
        },
        ValueView::Bytes(b) => {
            lemma_read_bytes_round_trip(b, tail);
        },
        ValueView::Text(t) => {
            lemma_read_string_round_trip(t, tail);
        },
        ValueView::Absent => {},
        ValueView::Present(p) => {
            lemma_round_trip(*shape->Optional_0, *p, tail, (depth - 1) as nat);
        },
        ValueView::List(items) => {
            let inside = encode_items(items) + seq![TOKEN_END] + tail;
            assert(s =~= seq![TOKEN_LIST] + inside);
            assert(s[0] == TOKEN_LIST);
            assert(s.skip(1) =~= inside);
            assert(items.skip(0) =~= items);
            match shape {
                ShapeView::Tuple(shapes) => {
                    lemma_round_trip_tuple(shapes, items, 0, tail, (depth - 1) as nat);
                },
                ShapeView::List(element) => {
                    lemma_round_trip_elements(*element, items, 0, tail, (depth - 1) as nat);
                },
                _ => {
                    lemma_round_trip_elements(
                        ShapeView::Any,
                        items,
                        0,
                        tail,
                        (depth - 1) as nat,
                    );
                },
            }
        },
        ValueView::Dict(entries) => {
            let inside = encode_entries(entries) + seq![TOKEN_END] + tail;
            assert(s =~= seq![TOKEN_DICT] + inside);
            assert(s[0] == TOKEN_DICT);
            assert(s.skip(1) =~= inside);
            assert(entries.skip(0) =~= entries);
            match shape {
                ShapeView::Dict(key, value) => {
                    lemma_round_trip_entries(
                        *key,
                        *value,
                        entries,
                        0,
                        tail,
                        (depth - 1) as nat,
                    );
                },
                _ => {
                    lemma_round_trip_entries(
                        ShapeView::Any,
                        ShapeView::Any,
                        entries,
                        0,
                        tail,
                        (depth - 1) as nat,
                    );
                },
            }
        },
        ValueView::Record(values) => {
            let fields = shape->Record_0;
            let inside = encode_fields(values) + seq![TOKEN_END] + tail;
            assert(s =~= seq![TOKEN_DICT] + inside);
            assert(s[0] == TOKEN_DICT);
            assert(s.skip(1) =~= inside);
            assert(values.skip(0) =~= values);
            lemma_round_trip_fields(fields, values, 0, tail, (depth - 1) as nat);
            lemma_next_key_shrinks(inside);
        },
        ValueView::Variant(tag, carried) => {
            let variants = shape->Enum_0;
            match carried {
                None => {
                    lemma_read_string_round_trip(tag, tail);
                },
                Some(p) => {
                    let payload_shape = find_variant(variants, tag)->Some_0->Some_0;
                    let after_tag = encode(*p) + (seq![TOKEN_END] + tail);
                    let inside = byte_string_bytes(encode_utf8(tag)) + after_tag;
                    assert(s =~= seq![TOKEN_DICT] + inside);
                    assert(s[0] == TOKEN_DICT);
                    assert(s.skip(1) =~= inside);
                    lemma_read_string_round_trip(tag, after_tag);
                    lemma_round_trip(
                        payload_shape,
                        *p,
                        seq![TOKEN_END] + tail,
                        (depth - 1) as nat,
                    );
                    let closing = seq![TOKEN_END] + tail;
                    assert(closing[0] == TOKEN_END);
                    assert(closing.skip(1) =~= tail);
                },
            }
        },
    }
}

/// The items of a list from position `i` on, encoded and closed, are
/// decoded as those items.
pub proof fn lemma_round_trip_elements(
    element: ShapeView,
    items: Seq<ValueView>,
    i: int,
    tail: Seq<u8>,
    depth: nat,
)
    requires
        0 <= i <= items.len(),
        forall|k: int| 0 <= k < items.len() ==> conforms(#[trigger] items[k], element),
        forall|k: int| 0 <= k < items.len() ==> within(#[trigger] items[k], depth),
    ensures
        decode_elements(
            element,
            encode_items(items.skip(i)) + seq![TOKEN_END] + tail,
            depth,
        ) == (
            Ok::<Seq<ValueView>, ErrorView>(items.skip(i)),
            tail,
        ),
    decreases items, items.len() - i,
{
    let rest_items = items.skip(i);
    let s = encode_items(rest_items) + seq![TOKEN_END] + tail;
    if i == items.len() {
        assert(rest_items =~= Seq::<ValueView>::empty());
        assert(s =~= seq![TOKEN_END] + tail);
        assert(s[0] == TOKEN_END);
        assert(s.skip(1) =~= tail);
    } else {
        let after = encode_items(items.skip(i + 1)) + seq![TOKEN_END] + tail;
        assert(rest_items[0] == items[i]);
        assert(rest_items.skip(1) =~= items.skip(i + 1));
        assert(s =~= encode(items[i]) + after);
        lemma_round_trip(element, items[i], after, depth);
        lemma_decode_begins_at_token(element, s, depth);
        lemma_decode_shrinks(element, s, depth);
        lemma_round_trip_elements(element, items, i + 1, tail, depth);
        assert(seq![items[i]] + items.skip(i + 1) =~= rest_items);
    }
}

/// The items of a tuple from position `i` on, encoded and closed, are
/// decoded as those items.
pub proof fn lemma_round_trip_tuple(
    shapes: Seq<ShapeView>,
    items: Seq<ValueView>,
    i: int,
    tail: Seq<u8>,
    depth: nat,
)
    requires
        0 <= i <= items.len(),
        items.len() == shapes.len(),
        forall|k: int| 0 <= k < items.len() ==> conforms(#[trigger] items[k], shapes[k]),
        forall|k: int| 0 <= k < items.len() ==> within(#[trigger] items[k], depth),
    ensures
        decode_tuple(shapes, i, encode_items(items.skip(i)) + seq![TOKEN_END] + tail, depth) == (
            Ok::<Seq<ValueView>, ErrorView>(items.skip(i)),
            tail,
        ),
    decreases items, items.len() - i,
{
    let rest_items = items.skip(i);
    let s = encode_items(rest_items) + seq![TOKEN_END] + tail;
    if i == items.len() {
        assert(rest_items =~= Seq::<ValueView>::empty());
        assert(s =~= seq![TOKEN_END] + tail);
        assert(s[0] == TOKEN_END);
        assert(s.skip(1) =~= tail);
    } else {
        let after = encode_items(items.skip(i + 1)) + seq![TOKEN_END] + tail;
        assert(rest_items[0] == items[i]);
        assert(rest_items.skip(1) =~= items.skip(i + 1));
        assert(s =~= encode(items[i]) + after);
        lemma_round_trip(shapes[i], items[i], after, depth);
        lemma_decode_shrinks(shapes[i], s, depth);
        lemma_round_trip_tuple(shapes, items, i + 1, tail, depth);
        assert(seq![items[i]] + items.skip(i + 1) =~= rest_items);
    }
}

/// The entries of a dict from position `i` on, encoded and closed, are
/// decoded as those entries.
pub proof fn lemma_round_trip_entries(
    key: ShapeView,
    value: ShapeView,
    entries: Seq<(ValueView, ValueView)>,
    i: int,
    tail: Seq<u8>,
    depth: nat,
)
    requires
        0 <= i <= entries.len(),
        forall|k: int|
            0 <= k < entries.len() ==> conforms((#[trigger] entries[k]).0, key) && conforms(
                entries[k].1,
                value,
            ),
        forall|k: int|
            0 <= k < entries.len() ==> within((#[trigger] entries[k]).0, depth) && within(
                entries[k].1,
                depth,
            ),
    ensures
        decode_entries(
            key,
            value,
            encode_entries(entries.skip(i)) + seq![TOKEN_END] + tail,
            depth,
        ) == (
            Ok::<Seq<(ValueView, ValueView)>, ErrorView>(entries.skip(i)),
            tail,
        ),
    decreases entries, entries.len() - i,
{
    let rest_entries = entries.skip(i);
    let s = encode_entries(rest_entries) + seq![TOKEN_END] + tail;
    if i == entries.len() {
        assert(rest_entries =~= Seq::<(ValueView, ValueView)>::empty());
        assert(s =~= seq![TOKEN_END] + tail);
        assert(s[0] == TOKEN_END);
        assert(s.skip(1) =~= tail);
    } else {
        let after = encode_entries(entries.skip(i + 1)) + seq![TOKEN_END] + tail;
        let after_key = encode(entries[i].1) + after;
        assert(rest_entries[0] == entries[i]);
        assert(rest_entries.skip(1) =~= entries.skip(i + 1));
        assert(!conforms(ValueView::Absent, value));
        assert(encode_entry(entries[i]) == encode(entries[i].0) + encode(entries[i].1));
        assert(s =~= encode(entries[i].0) + after_key);
        lemma_round_trip(key, entries[i].0, after_key, depth);
        lemma_decode_begins_at_token(key, s, depth);
        lemma_decode_shrinks(key, s, depth);
        lemma_round_trip(value, entries[i].1, after, depth);
        lemma_decode_shrinks(value, after_key, depth);
        lemma_round_trip_entries(key, value, entries, i + 1, tail, depth);
        assert(seq![entries[i]] + entries.skip(i + 1) =~= rest_entries);
    }
}

/// The key that stands next before the fields of a record from position `i`
/// on: the name of the first of them that is not absent, or none.
pub open spec fn leading_key(values: Seq<(Seq<char>, ValueView)>, i: int) -> Option<Seq<char>>
    decreases values.len() - i,
{
    if i < 0 || i >= values.len() {
        None
    } else if values[i].1 is Absent {
        leading_key(values, i + 1)
    } else {
        Some(values[i].0)
    }
}

/// The leading key, if there is one, is the name of a field at `i` or after.
pub proof fn lemma_leading_key(values: Seq<(Seq<char>, ValueView)>, i: int)
    requires
        0 <= i,
    ensures
        leading_key(values, i) matches Some(name) ==> exists|j: int|
            i <= j < values.len() && (#[trigger] values[j]).0 == name && !(values[j].1 is Absent),
    decreases values.len() - i,
{
    if i < values.len() {
        if values[i].1 is Absent {
            lemma_leading_key(values, i + 1);
        } else {
            assert(values[i].0 == leading_key(values, i)->Some_0);
        }
    }
}

/// The fields of a record from position `i` on, encoded and closed, are
/// decoded as those fields.
pub proof fn lemma_round_trip_fields(
    fields: Seq<(Seq<char>, ShapeView)>,
    values: Seq<(Seq<char>, ValueView)>,
    i: int,
    tail: Seq<u8>,
    depth: nat,
)
    requires
        0 <= i <= values.len(),
        conforms(ValueView::Record(values), ShapeView::Record(fields)),
        forall|k: int| 0 <= k < values.len() ==> within((#[trigger] values[k]).1, depth),
    ensures
        ({
            let s = encode_fields(values.skip(i)) + seq![TOKEN_END] + tail;
            &&& next_key(s).0 == Ok::<Option<Seq<char>>, ErrorView>(leading_key(values, i))
            &&& decode_fields(fields, i, leading_key(values, i), next_key(s).1, depth) == (
                Ok::<Seq<(Seq<char>, ValueView)>, ErrorView>(values.skip(i)),
                tail,
            )
        }),
    decreases values, values.len() - i,
{
    let rest_values = values.skip(i);
    let s = encode_fields(rest_values) + seq![TOKEN_END] + tail;
    reveal_with_fuel(encode_fields, 2);
    reveal_with_fuel(decode_fields, 2);
    if i == values.len() {
        assert(rest_values =~= Seq::<(Seq<char>, ValueView)>::empty());
        assert(s =~= seq![TOKEN_END] + tail);
        assert(s[0] == TOKEN_END);
        assert(s.skip(1) =~= tail);
    } else {
        let after = encode_fields(values.skip(i + 1)) + seq![TOKEN_END] + tail;
        let name = values[i].0;
        let value = values[i].1;
        assert(rest_values[0] == values[i]);
        assert(rest_values.skip(1) =~= values.skip(i + 1));
        assert(values[i].0 == fields[i].0);
        lemma_round_trip_fields(fields, values, i + 1, tail, depth);
        lemma_next_key_shrinks(after);
        if value is Absent {
            assert(s =~= after);
            lemma_leading_key(values, i + 1);
            assert(leading_key(values, i) != Some(name)) by {
                if leading_key(values, i) == Some(name) {
                    let j = choose|j: int|
                        i + 1 <= j < values.len() && (#[trigger] values[j]).0 == name;
                    assert(fields[i].0 != fields[j].0);
                    assert(values[j].0 == fields[j].0);
                }
            }
            assert(seq![(name, ValueView::Absent)] + values.skip(i + 1) =~= rest_values);
            assert(!conforms(ValueView::Absent, fields[i].1));
            assert(fields[i].1 is Optional);
            assert(next_key(s).0 == Ok::<Option<Seq<char>>, ErrorView>(leading_key(values, i)));
            assert(decode_fields(fields, i, leading_key(values, i), next_key(s).1, depth) == (
                Ok::<Seq<(Seq<char>, ValueView)>, ErrorView>(values.skip(i)),
                tail,
            ));
        } else {
            let after_name = encode(value) + after;
            assert(s =~= byte_string_bytes(encode_utf8(name)) + after_name);
            lemma_read_string_round_trip(name, after_name);
            lemma_round_trip(fields[i].1, value, after, depth);
            lemma_decode_shrinks(fields[i].1, after_name, depth);
            assert(seq![(name, value)] + values.skip(i + 1) =~= rest_values);
            assert(next_key(s) == (Ok::<Option<Seq<char>>, ErrorView>(Some(name)), after_name));
            assert(leading_key(values, i) == Some(name));
            assert(decode(fields[i].1, after_name, depth) == (
                Ok::<ValueView, ErrorView>(value),
                after,
            ));
            assert(decode_fields(fields, i, leading_key(values, i), next_key(s).1, depth) == (
                Ok::<Seq<(Seq<char>, ValueView)>, ErrorView>(values.skip(i)),
                tail,
            ));
        }
    }
}

/// **Round trip, whole input.** A value that conforms to a shape and is
/// encoded alone is decoded as a whole, with nothing trailing.
pub proof fn lemma_round_trip_whole(shape: ShapeView, v: ValueView, depth: nat)
    requires
        conforms(v, shape),
        within(v, depth),
    ensures
        decode_all(shape, encode(v), depth) == Ok::<ValueView, ErrorView>(v),
{
    lemma_round_trip(shape, v, Seq::empty(), depth);
    assert(encode(v) + Seq::<u8>::empty() =~= encode(v));
}

} // verus!
