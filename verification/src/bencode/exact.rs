//! What holds of a decode that succeeded: what it took from the input is
//! the encoding of what it yielded. Only the entries of a record that name
//! no field are passed over and so are missing from the encoding.

use crate::bencode::error::ErrorView;
use crate::bencode::grammar::{
    decode, decode_all, decode_elements, decode_entries, decode_fields, decode_payload_variant,
    decode_record, decode_tuple, find_variant, lemma_decode_shrinks, lemma_next_key_shrinks,
    named_from, next_key, option_depth, value_token,
};
use crate::bencode::reader::{
    lemma_first_index, spec_advance, spec_peek_token, spec_read_bytes, spec_read_i64,
    spec_read_string, spec_read_until,
};
use crate::bencode::tokens::{
    Token, TOKEN_DELIM, TOKEN_DICT, TOKEN_END, TOKEN_INTEGER, TOKEN_LIST,
};
use crate::bencode::value::{
    encode, encode_entries, encode_entry, encode_field, encode_fields, encode_items, ShapeView,
    ValueView,
};
use crate::bencode::writer::{byte_string_bytes, integer_bytes};
use crate::text::decimal;
use vstd::prelude::*;
use vstd::utf8::{decode_utf8_encode_utf8, encode_utf8};

verus! {

/// `bytes` followed by `rest` is no longer than `s`, and is `s` where it is
/// as long.
pub open spec fn covers(s: Seq<u8>, bytes: Seq<u8>, rest: Seq<u8>) -> bool {
    &&& bytes.len() + rest.len() <= s.len()
    &&& bytes.len() + rest.len() == s.len() ==> s == bytes + rest
}

/// What covers a part of the input and what covers the next part cover both
/// when put together.
pub proof fn lemma_covers_chain(
    s: Seq<u8>,
    first: Seq<u8>,
    middle: Seq<u8>,
    second: Seq<u8>,
    rest: Seq<u8>,
)
    requires
        covers(s, first, middle),
        covers(middle, second, rest),
    ensures
        covers(s, first + second, rest),
{
    if first.len() + second.len() + rest.len() == s.len() {
        assert(s =~= (first + second) + rest);
    }
}

/// What covers the input covers it behind a common prefix as well.
pub proof fn lemma_covers_prefix(prefix: Seq<u8>, s: Seq<u8>, bytes: Seq<u8>, rest: Seq<u8>)
    requires
        covers(s, bytes, rest),
    ensures
        covers(prefix + s, prefix + bytes, rest),
{
    if bytes.len() + rest.len() == s.len() {
        assert(prefix + s =~= (prefix + bytes) + rest);
    }
}

/// The bytes of a key that was read, as they stood in the input.
pub open spec fn key_bytes(key: Option<Seq<char>>) -> Seq<u8> {
    match key {
        Some(k) => byte_string_bytes(encode_utf8(k)),
        None => Seq::empty(),
    }
}

/// An integer that was read stood in the input as its canonical numeral.
pub proof fn lemma_read_i64_exact(s: Seq<u8>)
    requires
        spec_read_i64(s).0 is Ok,
    ensures
        s == decimal(spec_read_i64(s).0->Ok_0 as int) + seq![TOKEN_END] + spec_read_i64(s).1,
{
    lemma_first_index(s, TOKEN_END);
    let (text, rest) = spec_read_until(s, TOKEN_END, ErrorView::ExpectedEnd);
    assert(s =~= text->Ok_0 + seq![TOKEN_END] + rest);
}

/// A byte string that was read stood in the input as it is encoded.
pub proof fn lemma_read_bytes_exact(s: Seq<u8>)
    requires
        spec_read_bytes(s).0 is Ok,
    ensures
        s == byte_string_bytes(spec_read_bytes(s).0->Ok_0) + spec_read_bytes(s).1,
{
    lemma_first_index(s, TOKEN_DELIM);
    let (text, after) = spec_read_until(s, TOKEN_DELIM, ErrorView::ExpectedDelimiter);
    let bytes = spec_read_bytes(s).0->Ok_0;
    let rest = spec_read_bytes(s).1;
    assert(s =~= text->Ok_0 + seq![TOKEN_DELIM] + after);
    assert(after =~= bytes + rest);
    assert(s =~= byte_string_bytes(bytes) + rest);
}

/// A text that was read stood in the input as it is encoded.
pub proof fn lemma_read_string_exact(s: Seq<u8>)
    requires
        spec_read_string(s).0 is Ok,
    ensures
        s == byte_string_bytes(encode_utf8(spec_read_string(s).0->Ok_0)) + spec_read_string(s).1,
{
    lemma_read_bytes_exact(s);
    decode_utf8_encode_utf8(spec_read_bytes(s).0->Ok_0);
}

/// A key that was read stood in the input as it is encoded; before the end
/// token nothing was read.
pub proof fn lemma_next_key_exact(s: Seq<u8>)
    requires
        next_key(s).0 is Ok,
    ensures
        s == key_bytes(next_key(s).0->Ok_0) + next_key(s).1,
        next_key(s).0->Ok_0 is None ==> spec_peek_token(s) == Ok::<Token, ErrorView>(Token::End),
{
    if spec_peek_token(s) == Ok::<Token, ErrorView>(Token::End) {
        assert(s =~= Seq::<u8>::empty() + s);
    } else {
        lemma_read_string_exact(s);
    }
}

/// **A decode is exact.** What a decode yields is never longer encoded than
/// what the decode took from the input, and where it is as long, the input
/// is that encoding and what was left unread: encoded again, the value gives
/// the bytes that it was read from. It is shorter only where a record
/// passed over a key that names none of its fields.
pub proof fn lemma_decode_exact(shape: ShapeView, s: Seq<u8>, depth: nat)
    requires
        decode(shape, s, depth).0 is Ok,
    ensures
        covers(s, encode(decode(shape, s, depth).0->Ok_0), decode(shape, s, depth).1),
        !(decode(shape, s, depth).0->Ok_0 is Absent),
    decreases s.len(), 1 + option_depth(shape), 0nat,
{
    let v = decode(shape, s, depth).0->Ok_0;
    let rest = decode(shape, s, depth).1;
    let below = (depth - 1) as nat;
    let t = spec_advance(s);
    reveal_with_fuel(decode, 2);
    match shape {
        ShapeView::Optional(inner) => {
            lemma_decode_exact(*inner, s, below);
            assert(covers(s, encode(v), rest));
        },
        ShapeView::Int => {
            lemma_integer_exact(s);
            assert(covers(s, encode(v), rest));
        },
        ShapeView::UInt => {
            lemma_integer_exact(s);
            assert(covers(s, encode(v), rest));
        },
        ShapeView::Bytes => {
            lemma_read_bytes_exact(s);
            assert(covers(s, encode(v), rest));
        },
        ShapeView::Text => {
            lemma_read_string_exact(s);
            assert(covers(s, encode(v), rest));
        },
        ShapeView::Any => {
            let token = value_token(s)->Ok_0;
            if token == Token::Int {
                lemma_integer_exact(s);
                assert(covers(s, encode(v), rest));
            } else if token == Token::Bytes {
                lemma_read_bytes_exact(s);
                assert(covers(s, encode(v), rest));
            } else if token == Token::List {
                lemma_elements_exact(ShapeView::Any, t, below);
                lemma_opened(s, TOKEN_LIST, encode_items(v->List_0) + seq![TOKEN_END], rest);
                assert(encode(v) =~= seq![TOKEN_LIST] + (encode_items(v->List_0)
                    + seq![TOKEN_END]));
            } else {
                lemma_entries_exact(ShapeView::Any, ShapeView::Any, t, below);
                lemma_opened(s, TOKEN_DICT, encode_entries(v->Dict_0) + seq![TOKEN_END], rest);
                assert(encode(v) =~= seq![TOKEN_DICT] + (encode_entries(v->Dict_0)
                    + seq![TOKEN_END]));
            }
        },
        ShapeView::List(element) => {
            lemma_elements_exact(*element, t, below);
            lemma_opened(s, TOKEN_LIST, encode_items(v->List_0) + seq![TOKEN_END], rest);
            assert(encode(v) =~= seq![TOKEN_LIST] + (encode_items(v->List_0) + seq![TOKEN_END]));
        },
        ShapeView::Tuple(shapes) => {
            lemma_tuple_exact(shapes, 0, t, below);
            lemma_opened(s, TOKEN_LIST, encode_items(v->List_0) + seq![TOKEN_END], rest);
            assert(encode(v) =~= seq![TOKEN_LIST] + (encode_items(v->List_0) + seq![TOKEN_END]));
        },
        ShapeView::Dict(key, value) => {
            lemma_entries_exact(*key, *value, t, below);
            lemma_opened(s, TOKEN_DICT, encode_entries(v->Dict_0) + seq![TOKEN_END], rest);
            assert(encode(v) =~= seq![TOKEN_DICT] + (encode_entries(v->Dict_0)
                + seq![TOKEN_END]));
        },
        ShapeView::Record(fields) => {
            lemma_record_exact(fields, t, below);
            lemma_opened(s, TOKEN_DICT, encode_fields(v->Record_0) + seq![TOKEN_END], rest);
            assert(encode(v) =~= seq![TOKEN_DICT] + (encode_fields(v->Record_0)
                + seq![TOKEN_END]));
        },
        ShapeView::Enum(variants) => {
            let token = value_token(s)->Ok_0;
            if token == Token::Bytes {
                lemma_read_string_exact(s);
                assert(covers(s, encode(v), rest));
            } else {
                lemma_payload_variant_exact(variants, t, below);
                let inside = byte_string_bytes(encode_utf8(v->Variant_0)) + encode(
                    *v->Variant_1->Some_0,
                ) + seq![TOKEN_END];
                lemma_opened(s, TOKEN_DICT, inside, rest);
                assert(encode(v) =~= seq![TOKEN_DICT] + inside);
            }
        },
    }
}

/// **Encoded again.** An input that is decoded as a whole, into a value
/// whose encoding is as long as the input, is that encoding: the value
/// encoded again gives the input byte for byte.
pub proof fn lemma_encoded_again(shape: ShapeView, s: Seq<u8>, depth: nat)
    requires
        decode_all(shape, s, depth) is Ok,
        encode(decode_all(shape, s, depth)->Ok_0).len() == s.len(),
    ensures
        encode(decode_all(shape, s, depth)->Ok_0) == s,
{
    lemma_decode_exact(shape, s, depth);
    let v = decode_all(shape, s, depth)->Ok_0;
    assert(encode(v) + Seq::<u8>::empty() =~= encode(v));
}

/// An integer that was decoded stood in the input as it is encoded.
proof fn lemma_integer_exact(s: Seq<u8>)
    requires
        s.len() > 0,
        s[0] == TOKEN_INTEGER,
        spec_read_i64(spec_advance(s)).0 is Ok,
    ensures
        s == integer_bytes(spec_read_i64(spec_advance(s)).0->Ok_0 as int) + spec_read_i64(
            spec_advance(s),
        ).1,
{
    let t = spec_advance(s);
    lemma_read_i64_exact(t);
    assert(s =~= seq![TOKEN_INTEGER] + t);
    let v = spec_read_i64(t).0->Ok_0;
    assert(s =~= integer_bytes(v as int) + spec_read_i64(t).1);
}

/// What covers the inside of a list or a dict covers the whole behind the
/// token that opens it.
proof fn lemma_opened(s: Seq<u8>, token: u8, inside: Seq<u8>, rest: Seq<u8>)
    requires
        s.len() > 0,
        s[0] == token,
        covers(spec_advance(s), inside, rest),
    ensures
        covers(s, seq![token] + inside, rest),
{
    assert(s =~= seq![token] + spec_advance(s));
    lemma_covers_prefix(seq![token], spec_advance(s), inside, rest);
}

/// The end token that was consumed stood in the input.
proof fn lemma_closed(s: Seq<u8>)
    requires
        spec_peek_token(s) == Ok::<Token, ErrorView>(Token::End),
    ensures
        s == seq![TOKEN_END] + spec_advance(s),
        covers(s, seq![TOKEN_END], spec_advance(s)),
{
    assert(s =~= seq![TOKEN_END] + spec_advance(s));
}

/// The elements of a list that were decoded, and its end token, stood in
/// the input as they are encoded.
pub proof fn lemma_elements_exact(element: ShapeView, s: Seq<u8>, depth: nat)
    requires
        decode_elements(element, s, depth).0 is Ok,
    ensures
        covers(
            s,
            encode_items(decode_elements(element, s, depth).0->Ok_0) + seq![TOKEN_END],
            decode_elements(element, s, depth).1,
        ),
    decreases s.len() + 1, 0nat, 0nat,
{
    let items = decode_elements(element, s, depth).0->Ok_0;
    let rest = decode_elements(element, s, depth).1;
    if spec_peek_token(s) == Ok::<Token, ErrorView>(Token::End) {
        lemma_closed(s);
        assert(encode_items(items) + seq![TOKEN_END] =~= seq![TOKEN_END]);
    } else {
        let v = decode(element, s, depth).0->Ok_0;
        let after = decode(element, s, depth).1;
        let others = decode_elements(element, after, depth).0->Ok_0;
        lemma_decode_exact(element, s, depth);
        lemma_elements_exact(element, after, depth);
        lemma_covers_chain(
            s,
            encode(v),
            after,
            encode_items(others) + seq![TOKEN_END],
            rest,
        );
        assert(items =~= seq![v] + others);
        assert(items.skip(1) =~= others);
        assert(encode_items(items) + seq![TOKEN_END] =~= encode(v) + (encode_items(others)
            + seq![TOKEN_END]));
    }
}

/// The elements of a tuple that were decoded, and its end token, stood in
/// the input as they are encoded.
pub proof fn lemma_tuple_exact(shapes: Seq<ShapeView>, i: int, s: Seq<u8>, depth: nat)
    requires
        decode_tuple(shapes, i, s, depth).0 is Ok,
    ensures
        covers(
            s,
            encode_items(decode_tuple(shapes, i, s, depth).0->Ok_0) + seq![TOKEN_END],
            decode_tuple(shapes, i, s, depth).1,
        ),
    decreases s.len() + 1, 0nat, shapes.len() - i,
{
    let items = decode_tuple(shapes, i, s, depth).0->Ok_0;
    let rest = decode_tuple(shapes, i, s, depth).1;
    if i < 0 || i >= shapes.len() {
        lemma_closed(s);
        assert(encode_items(items) + seq![TOKEN_END] =~= seq![TOKEN_END]);
    } else {
        let v = decode(shapes[i], s, depth).0->Ok_0;
        let after = decode(shapes[i], s, depth).1;
        let others = decode_tuple(shapes, i + 1, after, depth).0->Ok_0;
        lemma_decode_exact(shapes[i], s, depth);
        lemma_tuple_exact(shapes, i + 1, after, depth);
        lemma_covers_chain(
            s,
            encode(v),
            after,
            encode_items(others) + seq![TOKEN_END],
            rest,
        );
        assert(items =~= seq![v] + others);
        assert(items.skip(1) =~= others);
        assert(encode_items(items) + seq![TOKEN_END] =~= encode(v) + (encode_items(others)
            + seq![TOKEN_END]));
    }
}

/// The entries of a dict that were decoded, and its end token, stood in the
/// input as they are encoded.
pub proof fn lemma_entries_exact(key: ShapeView, value: ShapeView, s: Seq<u8>, depth: nat)
    requires
        decode_entries(key, value, s, depth).0 is Ok,
    ensures
        covers(
            s,
            encode_entries(decode_entries(key, value, s, depth).0->Ok_0) + seq![TOKEN_END],
            decode_entries(key, value, s, depth).1,
        ),
    decreases s.len() + 1, 0nat, 0nat,
{
    let entries = decode_entries(key, value, s, depth).0->Ok_0;
    let rest = decode_entries(key, value, s, depth).1;
    if spec_peek_token(s) == Ok::<Token, ErrorView>(Token::End) {
        lemma_closed(s);
        assert(encode_entries(entries) + seq![TOKEN_END] =~= seq![TOKEN_END]);
    } else {
        let k = decode(key, s, depth).0->Ok_0;
        let after_key = decode(key, s, depth).1;
        let v = decode(value, after_key, depth).0->Ok_0;
        let after = decode(value, after_key, depth).1;
        let others = decode_entries(key, value, after, depth).0->Ok_0;
        lemma_decode_exact(key, s, depth);
        lemma_decode_exact(value, after_key, depth);
        lemma_entries_exact(key, value, after, depth);
        lemma_covers_chain(s, encode(k), after_key, encode(v), after);
        lemma_covers_chain(
            s,
            encode(k) + encode(v),
            after,
            encode_entries(others) + seq![TOKEN_END],
            rest,
        );
        assert(entries =~= seq![(k, v)] + others);
        assert(entries.skip(1) =~= others);
        assert(encode_entry(entries[0]) == encode(k) + encode(v));
        assert(encode_entries(entries) + seq![TOKEN_END] =~= (encode(k) + encode(v)) + (
        encode_entries(others) + seq![TOKEN_END]));
    }
}

/// The fields of a record that were decoded, and its end token, stood in
/// the input as they are encoded, but for what was passed over.
pub proof fn lemma_record_exact(fields: Seq<(Seq<char>, ShapeView)>, s: Seq<u8>, depth: nat)
    requires
        decode_record(fields, s, depth).0 is Ok,
    ensures
        covers(
            s,
            encode_fields(decode_record(fields, s, depth).0->Ok_0) + seq![TOKEN_END],
            decode_record(fields, s, depth).1,
        ),
    decreases s.len() + 1, 0nat, fields.len() + 1,
{
    let key = next_key(s).0->Ok_0;
    let after = next_key(s).1;
    lemma_next_key_exact(s);
    lemma_next_key_shrinks(s);
    lemma_fields_exact(fields, 0, key, after, depth);
}

/// The fields of a record from a position on, with the key that was read
/// before them.
pub proof fn lemma_fields_exact(
    fields: Seq<(Seq<char>, ShapeView)>,
    i: int,
    key: Option<Seq<char>>,
    s: Seq<u8>,
    depth: nat,
)
    requires
        decode_fields(fields, i, key, s, depth).0 is Ok,
        key is None ==> spec_peek_token(s) == Ok::<Token, ErrorView>(Token::End),
    ensures
        covers(
            key_bytes(key) + s,
            encode_fields(decode_fields(fields, i, key, s, depth).0->Ok_0) + seq![TOKEN_END],
            decode_fields(fields, i, key, s, depth).1,
        ),
    decreases s.len() + 1, 0nat, fields.len() - i,
{
    let values = decode_fields(fields, i, key, s, depth).0->Ok_0;
    let rest = decode_fields(fields, i, key, s, depth).1;
    let written = encode_fields(values) + seq![TOKEN_END];
    let here = 0 <= i < fields.len();
    reveal_with_fuel(encode_fields, 2);
    if here && key == Some(fields[i].0) {
        let v = decode(fields[i].1, s, depth).0->Ok_0;
        let after = decode(fields[i].1, s, depth).1;
        let key2 = next_key(after).0->Ok_0;
        let after2 = next_key(after).1;
        let others = decode_fields(fields, i + 1, key2, after2, depth).0->Ok_0;
        lemma_decode_exact(fields[i].1, s, depth);
        lemma_next_key_exact(after);
        lemma_fields_exact(fields, i + 1, key2, after2, depth);
        lemma_covers_chain(
            s,
            encode(v),
            after,
            encode_fields(others) + seq![TOKEN_END],
            rest,
        );
        lemma_covers_prefix(
            key_bytes(key),
            s,
            encode(v) + (encode_fields(others) + seq![TOKEN_END]),
            rest,
        );
        assert(values =~= seq![(fields[i].0, v)] + others);
        assert(values.skip(1) =~= others);
        assert(encode_field(fields[i].0, v) == key_bytes(key) + encode(v));
        assert(written =~= key_bytes(key) + (encode(v) + (encode_fields(others)
            + seq![TOKEN_END])));
    } else if key is Some && !named_from(fields, 0, key->Some_0) {
        let after = decode(ShapeView::Any, s, depth).1;
        let key2 = next_key(after).0->Ok_0;
        let after2 = next_key(after).1;
        lemma_decode_shrinks(ShapeView::Any, s, depth);
        lemma_next_key_exact(after);
        lemma_fields_exact(fields, i, key2, after2, depth);
    } else if here {
        let others = decode_fields(fields, i + 1, key, s, depth).0->Ok_0;
        lemma_fields_exact(fields, i + 1, key, s, depth);
        assert(values =~= seq![(fields[i].0, ValueView::Absent)] + others);
        assert(values.skip(1) =~= others);
        assert(written =~= encode_fields(others) + seq![TOKEN_END]);
    } else {
        lemma_closed(s);
        assert(written =~= seq![TOKEN_END]);
        assert(key_bytes(key) + s =~= s);
    }
}

/// A variant in dict form that was decoded stood in the input as it is
/// encoded, after the token that opens it.
pub proof fn lemma_payload_variant_exact(
    variants: Seq<(Seq<char>, Option<ShapeView>)>,
    s: Seq<u8>,
    depth: nat,
)
    requires
        decode_payload_variant(variants, s, depth).0 is Ok,
    ensures
        ({
            let v = decode_payload_variant(variants, s, depth).0->Ok_0;
            &&& v is Variant
            &&& v->Variant_1 is Some
            &&& covers(
                s,
                byte_string_bytes(encode_utf8(v->Variant_0)) + encode(*v->Variant_1->Some_0)
                    + seq![TOKEN_END],
                decode_payload_variant(variants, s, depth).1,
            )
        }),
    decreases s.len() + 1, 0nat, 0nat,
{
    let tag = next_key(s).0->Ok_0->Some_0;
    let after_tag = next_key(s).1;
    let shape = find_variant(variants, tag)->Some_0->Some_0;
    let p = decode(shape, after_tag, depth).0->Ok_0;
    let after = decode(shape, after_tag, depth).1;
    let rest = decode_payload_variant(variants, s, depth).1;
    lemma_next_key_exact(s);
    lemma_next_key_shrinks(s);
    lemma_decode_exact(shape, after_tag, depth);
    lemma_closed(after);
    lemma_covers_chain(after_tag, encode(p), after, seq![TOKEN_END], rest);
    lemma_covers_prefix(key_bytes(Some(tag)), after_tag, encode(p) + seq![TOKEN_END], rest);
    assert(key_bytes(Some(tag)) + (encode(p) + seq![TOKEN_END]) =~= byte_string_bytes(
        encode_utf8(tag),
    ) + encode(p) + seq![TOKEN_END]);
}

} // verus!
