//! What a decode yields: the wire grammar as functions from the unread bytes
//! to an outcome and the bytes that are left.

use crate::bencode::error::ErrorView;
use crate::bencode::reader::{
    lemma_read_bytes_shrinks, lemma_read_i64_shrinks, spec_advance, spec_peek_token,
    spec_read_bytes, spec_read_i64, spec_read_string,
};
use crate::bencode::tokens::Token;
use crate::bencode::value::{ShapeView, ValueView};
use vstd::prelude::*;

verus! {

/// An outcome, and the bytes that are unread after it.
pub type Decoded<T> = (std::result::Result<T, ErrorView>, Seq<u8>);

/// The end token stands where a value has to.
pub open spec fn unexpected_end() -> ErrorView {
    ErrorView::Syntax("Unexpected end"@)
}

/// A token other than an integer stands where an integer is asked for.
pub open spec fn expected_integer() -> ErrorView {
    ErrorView::Internal("invalid type: expected an integer"@)
}

/// A negative integer stands where an unsigned one is asked for.
pub open spec fn expected_unsigned() -> ErrorView {
    ErrorView::Internal("invalid value: expected an unsigned integer"@)
}

/// A token other than a dict stands where a dict or a record is asked for.
pub open spec fn expected_dictionary() -> ErrorView {
    ErrorView::Internal("invalid type: expected a dictionary"@)
}

/// The tag names no variant of the enum.
pub open spec fn unknown_variant() -> ErrorView {
    ErrorView::Internal("unknown variant"@)
}

/// A bare tag stands for a variant that has a payload.
pub open spec fn expected_payload() -> ErrorView {
    ErrorView::Internal("invalid type: expected a variant with a payload"@)
}

/// A dict stands for a variant that has no payload.
pub open spec fn expected_unit_variant() -> ErrorView {
    ErrorView::Internal("invalid type: expected a unit variant"@)
}

/// The record ends, or goes on with the key of a later field, where a field
/// that is not optional has to stand.
pub open spec fn missing_field() -> ErrorView {
    ErrorView::Internal("missing field"@)
}

/// A key that names a field of the record that is passed already.
pub open spec fn unexpected_key() -> ErrorView {
    ErrorView::Internal("unexpected key"@)
}

/// How many optional layers wrap the shape.
pub open spec fn option_depth(shape: ShapeView) -> nat
    decreases shape,
{
    match shape {
        ShapeView::Optional(inner) => 1 + option_depth(*inner),
        _ => 0,
    }
}

/// The outcome with `f` applied to the value.
pub open spec fn and_then<A, B>(d: Decoded<A>, f: spec_fn(A) -> B) -> Decoded<B> {
    match d {
        (Ok(v), rest) => (Ok(f(v)), rest),
        (Err(e), rest) => (Err(e), rest),
    }
}

/// The outcome with `first` put before the values.
pub open spec fn prepend<T>(first: T, d: Decoded<Seq<T>>) -> Decoded<Seq<T>> {
    match d {
        (Ok(vs), rest) => (Ok(seq![first] + vs), rest),
        (Err(e), rest) => (Err(e), rest),
    }
}

/// The token at the start of a value. The end token is none.
pub open spec fn value_token(s: Seq<u8>) -> std::result::Result<Token, ErrorView> {
    match spec_peek_token(s) {
        Err(e) => Err(e),
        Ok(Token::End) => Err(unexpected_end()),
        Ok(t) => Ok(t),
    }
}

/// The end token, consumed; any other token is refused and stays unread.
pub open spec fn close(s: Seq<u8>) -> Decoded<()> {
    match spec_peek_token(s) {
        Err(e) => (Err(e), s),
        Ok(Token::End) => (Ok(()), spec_advance(s)),
        Ok(_) => (Err(ErrorView::ExpectedEnd), s),
    }
}

/// An integer: `i`, consumed, then the digits and `e`.
pub open spec fn decode_int(s: Seq<u8>) -> Decoded<ValueView> {
    and_then(spec_read_i64(spec_advance(s)), |v: i64| ValueView::Int(v))
}

/// An integer that must not be negative.
pub open spec fn decode_uint(s: Seq<u8>) -> Decoded<ValueView> {
    match spec_read_i64(spec_advance(s)) {
        (Ok(v), rest) => if v >= 0 {
            (Ok(ValueView::UInt(v as u64)), rest)
        } else {
            (Err(expected_unsigned()), rest)
        },
        (Err(e), rest) => (Err(e), rest),
    }
}

/// A byte string, as bytes.
pub open spec fn decode_bytes(s: Seq<u8>) -> Decoded<ValueView> {
    and_then(spec_read_bytes(s), |b: Seq<u8>| ValueView::Bytes(b))
}

/// A byte string, as text.
pub open spec fn decode_text(s: Seq<u8>) -> Decoded<ValueView> {
    and_then(spec_read_string(s), |t: Seq<char>| ValueView::Text(t))
}

/// The key that stands next in a record: `None` before the end token, which
/// stays unread.
pub open spec fn next_key(s: Seq<u8>) -> Decoded<Option<Seq<char>>> {
    match spec_peek_token(s) {
        Err(e) => (Err(e), s),
        Ok(Token::End) => (Ok(None), s),
        Ok(Token::Bytes) => and_then(spec_read_string(s), |k: Seq<char>| Some(k)),
        Ok(_) => (Err(ErrorView::ExpectedBytes), s),
    }
}

/// The payload shape of the first variant that is called `tag`.
pub open spec fn find_variant(
    variants: Seq<(Seq<char>, Option<ShapeView>)>,
    tag: Seq<char>,
) -> Option<Option<ShapeView>>
    decreases variants.len(),
{
    if variants.len() == 0 {
        None
    } else if variants[0].0 == tag {
        Some(variants[0].1)
    } else {
        find_variant(variants.skip(1), tag)
    }
}

/// A token that opens another level stands where none is left.
pub open spec fn too_deep() -> ErrorView {
    ErrorView::NestingTooDeep
}

/// One value of the given shape at the start of `s`, of which `depth`
/// levels may be entered.
///
/// Every shape but an optional one first looks at the token: the end token
/// is a syntax error, a token that the shape does not admit is refused, and
/// in both cases nothing is consumed. A list, a dict, a record and a variant
/// with a payload enter one level, and so does an optional value, which is
/// always read as present; at depth 0 that is an error, and nothing is
/// consumed.
pub open spec fn decode(shape: ShapeView, s: Seq<u8>, depth: nat) -> Decoded<ValueView>
    decreases s.len(), 1 + option_depth(shape), 0nat,
{
    let below = (depth - 1) as nat;
    match shape {
        ShapeView::Optional(inner) => if depth == 0 {
            (Err(too_deep()), s)
        } else {
            and_then(decode(*inner, s, below), |v: ValueView| ValueView::Present(Box::new(v)))
        },
        _ => match value_token(s) {
            Err(e) => (Err(e), s),
            Ok(token) => match shape {
                ShapeView::Any => match token {
                    Token::Int => decode_int(s),
                    Token::Bytes => decode_bytes(s),
                    Token::List => if depth == 0 {
                        (Err(too_deep()), s)
                    } else {
                        and_then(
                            decode_elements(ShapeView::Any, spec_advance(s), below),
                            |vs: Seq<ValueView>| ValueView::List(vs),
                        )
                    },
                    _ => if depth == 0 {
                        (Err(too_deep()), s)
                    } else {
                        and_then(
                            decode_entries(ShapeView::Any, ShapeView::Any, spec_advance(s), below),
                            |es: Seq<(ValueView, ValueView)>| ValueView::Dict(es),
                        )
                    },
                },
                ShapeView::Int => if token == Token::Int {
                    decode_int(s)
                } else {
                    (Err(expected_integer()), s)
                },
                ShapeView::UInt => if token == Token::Int {
                    decode_uint(s)
                } else {
                    (Err(expected_integer()), s)
                },
                ShapeView::Bytes => if token == Token::Bytes {
                    decode_bytes(s)
                } else {
                    (Err(ErrorView::ExpectedBytes), s)
                },
                ShapeView::Text => if token == Token::Bytes {
                    decode_text(s)
                } else {
                    (Err(ErrorView::ExpectedBytes), s)
                },
                ShapeView::List(element) => if token != Token::List {
                    (Err(ErrorView::ExpectedList), s)
                } else if depth == 0 {
                    (Err(too_deep()), s)
                } else {
                    and_then(
                        decode_elements(*element, spec_advance(s), below),
                        |vs: Seq<ValueView>| ValueView::List(vs),
                    )
                },
                ShapeView::Tuple(shapes) => if token != Token::List {
                    (Err(ErrorView::ExpectedList), s)
                } else if depth == 0 {
                    (Err(too_deep()), s)
                } else {
                    and_then(
                        decode_tuple(shapes, 0, spec_advance(s), below),
                        |vs: Seq<ValueView>| ValueView::List(vs),
                    )
                },
                ShapeView::Dict(key, value) => if token != Token::Dict {
                    (Err(expected_dictionary()), s)
                } else if depth == 0 {
                    (Err(too_deep()), s)
                } else {
                    and_then(
                        decode_entries(*key, *value, spec_advance(s), below),
                        |es: Seq<(ValueView, ValueView)>| ValueView::Dict(es),
                    )
                },
                ShapeView::Record(fields) => if token != Token::Dict {
                    (Err(expected_dictionary()), s)
                } else if depth == 0 {
                    (Err(too_deep()), s)
                } else {
                    and_then(
                        decode_record(fields, spec_advance(s), below),
                        |fs: Seq<(Seq<char>, ValueView)>| ValueView::Record(fs),
                    )
                },
                ShapeView::Enum(variants) => if token == Token::Bytes {
                    decode_unit_variant(variants, s)
                } else if token != Token::Dict {
                    (Err(ErrorView::ExpectedBytes), s)
                } else if depth == 0 {
                    (Err(too_deep()), s)
                } else {
                    decode_payload_variant(variants, spec_advance(s), below)
                },
                // Not reached: the optional shape is the first arm.
                ShapeView::Optional(_) => (Err(unexpected_end()), s),
            },
        },
    }
}

/// The elements of a list of any length, up to and with its end token;
/// `depth` levels may be entered by each.
pub open spec fn decode_elements(element: ShapeView, s: Seq<u8>, depth: nat) -> Decoded<
    Seq<ValueView>,
>
    decreases s.len() + 1, 0nat, 0nat,
{
    match spec_peek_token(s) {
        Err(e) => (Err(e), s),
        Ok(Token::End) => (Ok(Seq::empty()), spec_advance(s)),
        Ok(_) => match decode(element, s, depth) {
            (Err(e), rest) => (Err(e), rest),
            (Ok(v), rest) => if rest.len() < s.len() {
                prepend(v, decode_elements(element, rest, depth))
            } else {
                // Not reached: a value takes at least one byte.
                (Err(ErrorView::EOF), rest)
            },
        },
    }
}

/// The elements of a list of fixed arity from position `i` on, up to and
/// with its end token. After the last shape the end token has to follow;
/// before it, a value has to.
pub open spec fn decode_tuple(shapes: Seq<ShapeView>, i: int, s: Seq<u8>, depth: nat) -> Decoded<
    Seq<ValueView>,
>
    decreases s.len() + 1, 0nat, shapes.len() - i,
{
    if i < 0 || i >= shapes.len() {
        and_then(close(s), |u: ()| Seq::<ValueView>::empty())
    } else {
        match decode(shapes[i], s, depth) {
            (Err(e), rest) => (Err(e), rest),
            (Ok(v), rest) => if rest.len() < s.len() {
                prepend(v, decode_tuple(shapes, i + 1, rest, depth))
            } else {
                // Not reached: a value takes at least one byte.
                (Err(ErrorView::EOF), rest)
            },
        }
    }
}

/// The entries of a dict, up to and with its end token: each key is followed
/// by its value. Keys are neither compared nor ordered.
pub open spec fn decode_entries(
    key: ShapeView,
    value: ShapeView,
    s: Seq<u8>,
    depth: nat,
) -> Decoded<
    Seq<(ValueView, ValueView)>,
>
    decreases s.len() + 1, 0nat, 0nat,
{
    match spec_peek_token(s) {
        Err(e) => (Err(e), s),
        Ok(Token::End) => (Ok(Seq::empty()), spec_advance(s)),
        Ok(_) => match decode(key, s, depth) {
            (Err(e), rest) => (Err(e), rest),
            (Ok(k), rest) => if rest.len() < s.len() {
                match decode(value, rest, depth) {
                    (Err(e), rest2) => (Err(e), rest2),
                    (Ok(v), rest2) => if rest2.len() < s.len() {
                        prepend((k, v), decode_entries(key, value, rest2, depth))
                    } else {
                        // Not reached: a value takes at least one byte.
                        (Err(ErrorView::EOF), rest2)
                    },
                }
            } else {
                // Not reached: a value takes at least one byte.
                (Err(ErrorView::EOF), rest)
            },
        },
    }
}

/// The fields of a record, up to and with its end token.
pub open spec fn decode_record(
    fields: Seq<(Seq<char>, ShapeView)>,
    s: Seq<u8>,
    depth: nat,
) -> Decoded<
    Seq<(Seq<char>, ValueView)>,
>
    decreases s.len() + 1, 0nat, fields.len() + 1,
{
    match next_key(s) {
        (Err(e), rest) => (Err(e), rest),
        (Ok(key), rest) => if rest.len() <= s.len() {
            decode_fields(fields, 0, key, rest, depth)
        } else {
            // Not reached: a read leaves no more than there was.
            (Err(ErrorView::EOF), rest)
        },
    }
}

/// A field at position `from` or after is called `name`.
pub open spec fn named_from(
    fields: Seq<(Seq<char>, ShapeView)>,
    from: int,
    name: Seq<char>,
) -> bool {
    exists|j: int| 0 <= j && from <= j < fields.len() && (#[trigger] fields[j]).0 == name
}

/// The fields of a record from position `i` on, where `key` is the key that
/// was read last and `s` is what follows it (`None`: the end token is next).
///
/// The keys of the fields have to come in the order of the fields. A field
/// whose name is the key takes the value that follows. A key that names no
/// field at all is passed over with its value, whatever that is. Before a
/// key that names a later field, and before the end, an optional field is
/// absent and any other is missing. A key that names only fields that are
/// passed is unexpected.
pub open spec fn decode_fields(
    fields: Seq<(Seq<char>, ShapeView)>,
    i: int,
    key: Option<Seq<char>>,
    s: Seq<u8>,
    depth: nat,
) -> Decoded<Seq<(Seq<char>, ValueView)>>
    decreases s.len() + 1, 0nat, fields.len() - i,
{
    let here = 0 <= i < fields.len();
    if here && key == Some(fields[i].0) {
        match decode(fields[i].1, s, depth) {
            (Err(e), rest) => (Err(e), rest),
            (Ok(v), rest) => match next_key(rest) {
                (Err(e), rest2) => (Err(e), rest2),
                (Ok(key2), rest2) => if rest2.len() < s.len() {
                    prepend((fields[i].0, v), decode_fields(fields, i + 1, key2, rest2, depth))
                } else {
                    // Not reached: a value takes at least one byte.
                    (Err(ErrorView::EOF), rest2)
                },
            },
        }
    } else if key is Some && !named_from(fields, 0, key->Some_0) {
        match decode(ShapeView::Any, s, depth) {
            (Err(e), rest) => (Err(e), rest),
            (Ok(_), rest) => match next_key(rest) {
                (Err(e), rest2) => (Err(e), rest2),
                (Ok(key2), rest2) => if rest2.len() < s.len() {
                    decode_fields(fields, i, key2, rest2, depth)
                } else {
                    // Not reached: a value takes at least one byte.
                    (Err(ErrorView::EOF), rest2)
                },
            },
        }
    } else if here {
        if key is Some && !named_from(fields, i + 1, key->Some_0) {
            (Err(unexpected_key()), s)
        } else if fields[i].1 is Optional {
            prepend(
                (fields[i].0, ValueView::Absent),
                decode_fields(fields, i + 1, key, s, depth),
            )
        } else {
            (Err(missing_field()), s)
        }
    } else {
        match key {
            None => (Ok(Seq::empty()), spec_advance(s)),
            Some(_) => (Err(unexpected_key()), s),
        }
    }
}

/// A variant that is written as its bare tag: it has to be a unit variant.
pub open spec fn decode_unit_variant(
    variants: Seq<(Seq<char>, Option<ShapeView>)>,
    s: Seq<u8>,
) -> Decoded<ValueView> {
    match spec_read_string(s) {
        (Err(e), rest) => (Err(e), rest),
        (Ok(tag), rest) => match find_variant(variants, tag) {
            None => (Err(unknown_variant()), rest),
            Some(None) => (Ok(ValueView::Variant(tag, None)), rest),
            Some(Some(_)) => (Err(expected_payload()), rest),
        },
    }
}

/// A variant that is written as a dict, whose `d` has been consumed: the
/// tag, the payload, and the end token.
pub open spec fn decode_payload_variant(
    variants: Seq<(Seq<char>, Option<ShapeView>)>,
    s: Seq<u8>,
    depth: nat,
) -> Decoded<ValueView>
    decreases s.len() + 1, 0nat, 0nat,
{
    match next_key(s) {
        (Err(e), rest) => (Err(e), rest),
        (Ok(None), rest) => (Err(unexpected_end()), rest),
        (Ok(Some(tag)), rest) => match find_variant(variants, tag) {
            None => (Err(unknown_variant()), rest),
            Some(None) => (Err(expected_unit_variant()), rest),
            Some(Some(payload)) => if rest.len() <= s.len() {
                match decode(payload, rest, depth) {
                    (Err(e), rest2) => (Err(e), rest2),
                    (Ok(p), rest2) => and_then(
                        close(rest2),
                        |u: ()| ValueView::Variant(tag, Some(Box::new(p))),
                    ),
                }
            } else {
                // Not reached: a read leaves no more than there was.
                (Err(ErrorView::EOF), rest)
            },
        },
    }
}

/// One value of the given shape that is the whole of `s`: bytes that are
/// left after it are trailing data.
pub open spec fn decode_all(shape: ShapeView, s: Seq<u8>, depth: nat) -> std::result::Result<
    ValueView,
    ErrorView,
> {
    match decode(shape, s, depth) {
        (Err(e), _) => Err(e),
        (Ok(v), rest) => if rest.len() > 0 {
            Err(ErrorView::TrailingData(rest))
        } else {
            Ok(v)
        },
    }
}

/// A key that is read takes at least one byte; before the end token
/// nothing is taken.
pub proof fn lemma_next_key_shrinks(s: Seq<u8>)
    ensures
        next_key(s).1.len() <= s.len(),
        next_key(s).0 matches Ok(Some(_)) ==> next_key(s).1.len() < s.len(),
        next_key(s).0 matches Ok(None) ==> next_key(s).1 == s && spec_peek_token(s) == Ok::<
            Token,
            ErrorView,
        >(Token::End),
{
    lemma_read_bytes_shrinks(s);
}

/// A value takes at least one byte, and a failed decode gives none back.
pub proof fn lemma_decode_shrinks(shape: ShapeView, s: Seq<u8>, depth: nat)
    ensures
        decode(shape, s, depth).1.len() <= s.len(),
        decode(shape, s, depth).0 is Ok ==> decode(shape, s, depth).1.len() < s.len(),
    decreases s.len(), 1 + option_depth(shape), 0nat,
{
    let below = (depth - 1) as nat;
    match shape {
        ShapeView::Optional(inner) => {
            if depth > 0 {
                lemma_decode_shrinks(*inner, s, below);
            }
        },
        _ => {
            if value_token(s) is Ok && depth > 0 {
                let t = spec_advance(s);
                match shape {
                    ShapeView::Any => {
                        lemma_decode_elements_shrinks(ShapeView::Any, t, below);
                        lemma_decode_entries_shrinks(ShapeView::Any, ShapeView::Any, t, below);
                    },
                    ShapeView::List(element) => {
                        lemma_decode_elements_shrinks(*element, t, below);
                    },
                    ShapeView::Tuple(shapes) => {
                        lemma_decode_tuple_shrinks(shapes, 0, t, below);
                    },
                    ShapeView::Dict(key, value) => {
                        lemma_decode_entries_shrinks(*key, *value, t, below);
                    },
                    ShapeView::Record(fields) => {
                        lemma_decode_record_shrinks(fields, t, below);
                    },
                    ShapeView::Enum(variants) => {
                        lemma_decode_payload_variant_shrinks(variants, t, below);
                    },
                    _ => {},
                }
            }
            if value_token(s) is Ok {
                lemma_read_i64_shrinks(spec_advance(s));
                lemma_read_bytes_shrinks(s);
            }
        },
    }
}

/// The elements of a list and its end token leave no more than there was.
pub proof fn lemma_decode_elements_shrinks(element: ShapeView, s: Seq<u8>, depth: nat)
    ensures
        decode_elements(element, s, depth).1.len() <= s.len(),
    decreases s.len() + 1, 0nat, 0nat,
{
    lemma_decode_shrinks(element, s, depth);
    let (r, rest) = decode(element, s, depth);
    if r is Ok && rest.len() < s.len() {
        lemma_decode_elements_shrinks(element, rest, depth);
    }
}

/// The elements of a tuple and its end token leave no more than there was.
pub proof fn lemma_decode_tuple_shrinks(shapes: Seq<ShapeView>, i: int, s: Seq<u8>, depth: nat)
    ensures
        decode_tuple(shapes, i, s, depth).1.len() <= s.len(),
    decreases s.len() + 1, 0nat, shapes.len() - i,
{
    if 0 <= i < shapes.len() {
        lemma_decode_shrinks(shapes[i], s, depth);
        let (r, rest) = decode(shapes[i], s, depth);
        if r is Ok && rest.len() < s.len() {
            lemma_decode_tuple_shrinks(shapes, i + 1, rest, depth);
        }
    }
}

/// The entries of a dict and its end token leave no more than there was.
pub proof fn lemma_decode_entries_shrinks(
    key: ShapeView,
    value: ShapeView,
    s: Seq<u8>,
    depth: nat,
)
    ensures
        decode_entries(key, value, s, depth).1.len() <= s.len(),
    decreases s.len() + 1, 0nat, 0nat,
{
    lemma_decode_shrinks(key, s, depth);
    let (r, rest) = decode(key, s, depth);
    if r is Ok && rest.len() < s.len() {
        lemma_decode_shrinks(value, rest, depth);
        let (r2, rest2) = decode(value, rest, depth);
        if r2 is Ok && rest2.len() < s.len() {
            lemma_decode_entries_shrinks(key, value, rest2, depth);
        }
    }
}

/// The fields of a record and its end token leave no more than there was.
pub proof fn lemma_decode_record_shrinks(
    fields: Seq<(Seq<char>, ShapeView)>,
    s: Seq<u8>,
    depth: nat,
)
    ensures
        decode_record(fields, s, depth).1.len() <= s.len(),
    decreases s.len() + 1, 0nat, fields.len() + 1,
{
    lemma_next_key_shrinks(s);
    let (r, rest) = next_key(s);
    if let Ok(key) = r {
        lemma_decode_fields_shrinks(fields, 0, key, rest, depth);
    }
}

/// The fields of a record from a position on leave no more than there was.
pub proof fn lemma_decode_fields_shrinks(
    fields: Seq<(Seq<char>, ShapeView)>,
    i: int,
    key: Option<Seq<char>>,
    s: Seq<u8>,
    depth: nat,
)
    ensures
        decode_fields(fields, i, key, s, depth).1.len() <= s.len(),
    decreases s.len() + 1, 0nat, fields.len() - i,
{
    let here = 0 <= i < fields.len();
    if here && key == Some(fields[i].0) {
        lemma_decode_shrinks(fields[i].1, s, depth);
        let (r, rest) = decode(fields[i].1, s, depth);
        if r is Ok {
            lemma_next_key_shrinks(rest);
            let (r2, rest2) = next_key(rest);
            if let Ok(key2) = r2 {
                lemma_decode_fields_shrinks(fields, i + 1, key2, rest2, depth);
            }
        }
    } else if key is Some && !named_from(fields, 0, key->Some_0) {
        lemma_decode_shrinks(ShapeView::Any, s, depth);
        let (r, rest) = decode(ShapeView::Any, s, depth);
        if r is Ok {
            lemma_next_key_shrinks(rest);
            let (r2, rest2) = next_key(rest);
            if let Ok(key2) = r2 {
                if rest2.len() < s.len() {
                    lemma_decode_fields_shrinks(fields, i, key2, rest2, depth);
                }
            }
        }
    } else if here {
        if fields[i].1 is Optional {
            lemma_decode_fields_shrinks(fields, i + 1, key, s, depth);
        }
    }
}

/// A variant in dict form leaves no more than there was.
pub proof fn lemma_decode_payload_variant_shrinks(
    variants: Seq<(Seq<char>, Option<ShapeView>)>,
    s: Seq<u8>,
    depth: nat,
)
    ensures
        decode_payload_variant(variants, s, depth).1.len() <= s.len(),
    decreases s.len() + 1, 0nat, 0nat,
{
    lemma_next_key_shrinks(s);
    let (r, rest) = next_key(s);
    if let Ok(Some(tag)) = r {
        if let Some(Some(payload)) = find_variant(variants, tag) {
            lemma_decode_shrinks(payload, rest, depth);
        }
    }
}

} // verus!
