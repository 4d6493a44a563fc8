//! The decoder: recursive descent over the tokens of a reader, driven by the
//! shape that the caller asks for.

use crate::bencode::error::{outcome, outcome_view, Error, ErrorView, Result};
use crate::bencode::grammar::{
    close, decode, decode_all, decode_elements, decode_entries, decode_fields,
    decode_payload_variant, decode_record,
    decode_tuple, expected_dictionary, expected_integer, expected_payload, expected_unit_variant,
    expected_unsigned, find_variant, lemma_decode_shrinks, lemma_next_key_shrinks, missing_field,
    named_from, next_key, option_depth, prepend, too_deep, unexpected_end, unexpected_key,
    unknown_variant, value_token, Decoded,
};
use crate::bencode::reader::{
    reads_as, spec_advance, spec_peek_token, spec_read_i64, BencodeReader,
};
use crate::bencode::tokens::Token;
use crate::bencode::value::{Shape, ShapeView, Value, ValueView, MAX_DEPTH};
use vstd::pervasive::unreached;
use vstd::prelude::*;
use vstd::string::StringExecFns;

verus! {

/// The views of the values, in their order.
pub open spec fn values_view(values: Seq<Value>) -> Seq<ValueView> {
    Seq::new(values.len(), |i: int| values[i]@)
}

/// The views of the shapes, in their order.
pub open spec fn shapes_view(shapes: Seq<Shape>) -> Seq<ShapeView> {
    Seq::new(shapes.len(), |i: int| shapes[i]@)
}

/// The views of the entries, in their order.
pub open spec fn entries_view(entries: Seq<(Value, Value)>) -> Seq<(ValueView, ValueView)> {
    Seq::new(entries.len(), |i: int| (entries[i].0@, entries[i].1@))
}

/// The views of a record's fields, in their order.
pub open spec fn fields_view(fields: Seq<(String, Value)>) -> Seq<(Seq<char>, ValueView)> {
    Seq::new(fields.len(), |i: int| (fields[i].0@, fields[i].1@))
}

/// The views of a record shape's fields, in their order.
pub open spec fn field_shapes_view(fields: Seq<(String, Shape)>) -> Seq<(Seq<char>, ShapeView)> {
    Seq::new(fields.len(), |i: int| (fields[i].0@, fields[i].1@))
}

/// The view of a variant's payload shape.
pub open spec fn payload_view(payload: Option<Shape>) -> Option<ShapeView> {
    match payload {
        Some(p) => Some(p@),
        None => None,
    }
}

/// The views of an enum shape's variants, in their order.
pub open spec fn variants_view(variants: Seq<(String, Option<Shape>)>) -> Seq<
    (Seq<char>, Option<ShapeView>),
> {
    Seq::new(variants.len(), |i: int| (variants[i].0@, payload_view(variants[i].1)))
}

/// How a call ended, with the value mapped by `f` and the error by its view.
pub open spec fn outcome_with<T, V>(r: Result<T>, f: spec_fn(T) -> V) -> std::result::Result<
    V,
    ErrorView,
> {
    match r {
        Ok(v) => Ok(f(v)),
        Err(e) => Err(e@),
    }
}

/// What a step of a sequence access yields on the unread bytes `s`, where
/// the element may enter `depth` levels.
///
/// Without a declared length: `None` at the end token, which is consumed;
/// otherwise one element. With `n` elements still to come: `None`, and
/// nothing read, when `n` is 0; otherwise one element, and after the last
/// one the end token, which has to follow.
pub open spec fn next_element(seed: ShapeView, len: Option<nat>, s: Seq<u8>, depth: nat) -> Decoded<
    Option<ValueView>,
> {
    match len {
        None => match spec_peek_token(s) {
            Err(e) => (Err(e), s),
            Ok(Token::End) => (Ok(None), spec_advance(s)),
            Ok(_) => match decode(seed, s, depth) {
                (Ok(v), rest) => (Ok(Some(v)), rest),
                (Err(e), rest) => (Err(e), rest),
            },
        },
        Some(n) => if n == 0 {
            (Ok(None), s)
        } else {
            match decode(seed, s, depth) {
                (Err(e), rest) => (Err(e), rest),
                (Ok(v), rest) => if n == 1 {
                    match close(rest) {
                        (Ok(_), rest2) => (Ok(Some(v)), rest2),
                        (Err(e), rest2) => (Err(e), rest2),
                    }
                } else {
                    (Ok(Some(v)), rest)
                },
            }
        },
    }
}

/// The view of the result of a step of a sequence access.
pub open spec fn step_view(r: Result<Option<Value>>) -> std::result::Result<
    Option<ValueView>,
    ErrorView,
> {
    match r {
        Ok(Some(v)) => Ok(Some(v@)),
        Ok(None) => Ok(None),
        Err(e) => Err(e@),
    }
}

/// The declared length as a number without bound.
pub open spec fn len_view(len: Option<usize>) -> Option<nat> {
    match len {
        Some(n) => Some(n as nat),
        None => None,
    }
}

fn fail_unexpected_end() -> (e: Error)
    ensures
        e@ == unexpected_end(),
{
    Error::from_syntax("Unexpected end")
}

fn fail_expected_integer() -> (e: Error)
    ensures
        e@ == expected_integer(),
{
    Error::from_internal(String::from_str("invalid type: expected an integer"))
}

fn fail_expected_unsigned() -> (e: Error)
    ensures
        e@ == expected_unsigned(),
{
    Error::from_internal(String::from_str("invalid value: expected an unsigned integer"))
}

fn fail_expected_dictionary() -> (e: Error)
    ensures
        e@ == expected_dictionary(),
{
    Error::from_internal(String::from_str("invalid type: expected a dictionary"))
}

fn fail_unknown_variant() -> (e: Error)
    ensures
        e@ == unknown_variant(),
{
    Error::from_internal(String::from_str("unknown variant"))
}

fn fail_expected_payload() -> (e: Error)
    ensures
        e@ == expected_payload(),
{
    Error::from_internal(String::from_str("invalid type: expected a variant with a payload"))
}

fn fail_expected_unit_variant() -> (e: Error)
    ensures
        e@ == expected_unit_variant(),
{
    Error::from_internal(String::from_str("invalid type: expected a unit variant"))
}

fn fail_missing_field() -> (e: Error)
    ensures
        e@ == missing_field(),
{
    Error::from_internal(String::from_str("missing field"))
}

fn fail_unexpected_key() -> (e: Error)
    ensures
        e@ == unexpected_key(),
{
    Error::from_internal(String::from_str("unexpected key"))
}

/// A decoder over a reader that it holds for the length of one decode, and
/// the number of levels that a value may still enter.
pub struct Deserializer<'de, R: BencodeReader> {
    pub reader: &'de mut R,
    pub depth: usize,
}

/// The cursor that a decoder hands out for the inside of a list, a dict or
/// a variant: the decoder, and for a list of fixed arity the number of
/// elements that are still to come.
pub struct DeserializerAccess<'a, 'de, R: BencodeReader> {
    pub deserializer: &'a mut Deserializer<'de, R>,
    pub len: Option<usize>,
}

impl<'de, R: BencodeReader> Deserializer<'de, R> {
    /// A decoder that follows a value [`MAX_DEPTH`] levels deep.
    pub fn from_reader(reader: &'de mut R) -> (d: Self)
        ensures
            *d.reader == *old(reader),
            *final(d.reader) == *final(reader),
            d.depth == MAX_DEPTH,
    {
        Deserializer { reader, depth: MAX_DEPTH }
    }

    /// What a call does that is to read as `expected` says. Over a reliable
    /// reader that is its outcome and what it leaves unread; over another
    /// the call may also fail with an I/O error. Either way the levels that
    /// may be entered are as many as before, and the reader is as reliable
    /// as it was.
    pub open spec fn yields<T>(
        before: Self,
        after: Self,
        got: std::result::Result<T, ErrorView>,
        expected: Decoded<T>,
    ) -> bool {
        &&& after.depth == before.depth
        &&& after.reader.reliable() == before.reader.reliable()
        &&& reads_as(before.reader.reliable(), expected, (got, after.reader.unread()))
    }

    /// An alias of `from_reader`.
    pub fn from_buffer(reader: &'de mut R) -> (d: Self)
        ensures
            *d.reader == *old(reader),
            *final(d.reader) == *final(reader),
            d.depth == MAX_DEPTH,
    {
        Deserializer { reader, depth: MAX_DEPTH }
    }

    /// The token of the value that stands next; the end token is a syntax
    /// error. Nothing is consumed.
    fn peek_value(&mut self) -> (r: Result<Token>)
        ensures
            *final(final(self).reader) == *final(old(self).reader),
            Self::yields(
                *old(self),
                *final(self),
                outcome(r),
                (value_token(old(self).reader.unread()), old(self).reader.unread()),
            ),
    {
        match self.reader.peek_token()? {
            Token::End => Err(fail_unexpected_end()),
            t => Ok(t),
        }
    }

    /// The end token, which has to stand next, is consumed.
    fn expect_end(&mut self) -> (r: Result<()>)
        ensures
            *final(final(self).reader) == *final(old(self).reader),
            Self::yields(
                *old(self),
                *final(self),
                outcome(r),
                close(old(self).reader.unread()),
            ),
    {
        match self.reader.peek_token()? {
            Token::End => {
                self.reader.consume_current_token()?;
                Ok(())
            },
            _ => Err(Error::ExpectedEnd),
        }
    }

    /// Enters one level: the token that opens it is consumed, and one level
    /// fewer may be entered from there. Where none is left, that is an
    /// error, and the token stays unread.
    fn enter(&mut self) -> (r: Result<()>)
        ensures
            *final(final(self).reader) == *final(old(self).reader),
            old(self).depth == 0 ==> Self::yields(
                *old(self),
                *final(self),
                outcome(r),
                (Err::<(), ErrorView>(too_deep()), old(self).reader.unread()),
            ),
            final(self).reader.reliable() == old(self).reader.reliable(),
            old(self).depth > 0 ==> {
                ||| r is Ok && final(self).depth == old(self).depth - 1
                    && final(self).reader.unread() == spec_advance(old(self).reader.unread())
                ||| !old(self).reader.reliable() && outcome(r) == Err::<(), ErrorView>(
                    ErrorView::IO,
                ) && final(self).depth == old(self).depth
            },
    {
        if self.depth == 0 {
            return Err(Error::NestingTooDeep);
        }
        self.reader.consume_current_token()?;
        self.depth = self.depth - 1;
        Ok(())
    }

    /// Reads `i`, the digits and `e`, once the token is known to be `Int`.
    fn read_int(&mut self) -> (r: Result<i64>)
        ensures
            *final(final(self).reader) == *final(old(self).reader),
            Self::yields(
                *old(self),
                *final(self),
                outcome(r),
                spec_read_i64(spec_advance(old(self).reader.unread())),
            ),
    {
        self.reader.consume_current_token()?;
        self.reader.read_i64()
    }

    /// A signed integer.
    pub fn deserialize_i64(&mut self) -> (r: Result<Value>)
        ensures
            *final(final(self).reader) == *final(old(self).reader),
            Self::yields(
                *old(self),
                *final(self),
                outcome_view(r),
                decode(ShapeView::Int, old(self).reader.unread(), old(self).depth as nat),
            ),
    {
        match self.peek_value()? {
            Token::Int => Ok(Value::Int(self.read_int()?)),
            _ => Err(fail_expected_integer()),
        }
    }

    /// An unsigned integer. The wire holds it as a signed one: a negative
    /// number is refused, and so is one above the signed range.
    pub fn deserialize_u64(&mut self) -> (r: Result<Value>)
        ensures
            *final(final(self).reader) == *final(old(self).reader),
            Self::yields(
                *old(self),
                *final(self),
                outcome_view(r),
                decode(ShapeView::UInt, old(self).reader.unread(), old(self).depth as nat),
            ),
    {
        match self.peek_value()? {
            Token::Int => {
                let v = self.read_int()?;
                if v >= 0 {
                    Ok(Value::UInt(v as u64))
                } else {
                    Err(fail_expected_unsigned())
                }
            },
            _ => Err(fail_expected_integer()),
        }
    }

    /// A byte string, as raw bytes.
    pub fn deserialize_bytes(&mut self) -> (r: Result<Value>)
        ensures
            *final(final(self).reader) == *final(old(self).reader),
            Self::yields(
                *old(self),
                *final(self),
                outcome_view(r),
                decode(ShapeView::Bytes, old(self).reader.unread(), old(self).depth as nat),
            ),
    {
        match self.peek_value()? {
            Token::Bytes => Ok(Value::Bytes(self.reader.read_bytes()?)),
            _ => Err(Error::ExpectedBytes),
        }
    }

    /// A byte string that has to be well-formed UTF-8, as text.
    pub fn deserialize_str(&mut self) -> (r: Result<Value>)
        ensures
            *final(final(self).reader) == *final(old(self).reader),
            Self::yields(
                *old(self),
                *final(self),
                outcome_view(r),
                decode(ShapeView::Text, old(self).reader.unread(), old(self).depth as nat),
            ),
    {
        match self.peek_value()? {
            Token::Bytes => Ok(Value::Text(self.reader.read_string()?)),
            _ => Err(Error::ExpectedBytes),
        }
    }

    /// The same as `deserialize_str`.
    pub fn deserialize_string(&mut self) -> (r: Result<Value>)
        ensures
            *final(final(self).reader) == *final(old(self).reader),
            Self::yields(
                *old(self),
                *final(self),
                outcome_view(r),
                decode(ShapeView::Text, old(self).reader.unread(), old(self).depth as nat),
            ),
    {
        self.deserialize_str()
    }

    /// The same as `deserialize_str`: the name of a field or of a variant.
    pub fn deserialize_identifier(&mut self) -> (r: Result<Value>)
        ensures
            *final(final(self).reader) == *final(old(self).reader),
            Self::yields(
                *old(self),
                *final(self),
                outcome_view(r),
                decode(ShapeView::Text, old(self).reader.unread(), old(self).depth as nat),
            ),
    {
        self.deserialize_str()
    }

    /// A newtype struct is read as what it wraps.
    pub fn deserialize_newtype_struct(&mut self, shape: &Shape) -> (r: Result<Value>)
        ensures
            *final(final(self).reader) == *final(old(self).reader),
            Self::yields(
                *old(self),
                *final(self),
                outcome_view(r),
                decode(shape@, old(self).reader.unread(), old(self).depth as nat),
            ),
        decreases old(self).reader.unread().len(), 1 + option_depth(shape@), 1nat,
    {
        self.deserialize(shape)
    }

    /// An optional value is always read as present: the wire has no token
    /// for an absent one.
    pub fn deserialize_option(&mut self, inner: &Shape) -> (r: Result<Value>)
        ensures
            *final(final(self).reader) == *final(old(self).reader),
            Self::yields(
                *old(self),
                *final(self),
                outcome_view(r),
                decode(
                    ShapeView::Optional(Box::new(inner@)),
                    old(self).reader.unread(),
                    old(self).depth as nat,
                ),
            ),
        decreases old(self).reader.unread().len(), 1 + option_depth(inner@), 1nat,
    {
        if self.depth == 0 {
            return Err(Error::NestingTooDeep);
        }
        self.depth = self.depth - 1;
        let decoded = self.deserialize(inner);
        self.depth = self.depth + 1;
        Ok(Value::Present(Box::new(decoded?)))
    }

    /// Whatever stands next: an integer, a byte string, a list or a dict of
    /// such values.
    pub fn deserialize_any(&mut self) -> (r: Result<Value>)
        ensures
            *final(final(self).reader) == *final(old(self).reader),
            Self::yields(
                *old(self),
                *final(self),
                outcome_view(r),
                decode(ShapeView::Any, old(self).reader.unread(), old(self).depth as nat),
            ),
        decreases old(self).reader.unread().len(), 0nat, 3nat,
    {
        match self.peek_value()? {
            Token::Int => Ok(Value::Int(self.read_int()?)),
            Token::Bytes => Ok(Value::Bytes(self.reader.read_bytes()?)),
            Token::List => {
                self.enter()?;
                let mut access = DeserializerAccess::new(self);
                let visited = access.visit_seq(&Shape::Any);
                self.depth = self.depth + 1;
                let items = visited?;
                assert(Value::List(items)@->List_0 =~= values_view(items@));
                Ok(Value::List(items))
            },
            _ => {
                self.enter()?;
                let mut access = DeserializerAccess::new(self);
                let visited = access.visit_map(&Shape::Any, &Shape::Any);
                self.depth = self.depth + 1;
                let entries = visited?;
                assert(Value::Dict(entries)@->Dict_0 =~= entries_view(entries@));
                Ok(Value::Dict(entries))
            },
        }
    }

    /// A list of any length.
    pub fn deserialize_seq(&mut self, element: &Shape) -> (r: Result<Value>)
        ensures
            *final(final(self).reader) == *final(old(self).reader),
            Self::yields(
                *old(self),
                *final(self),
                outcome_view(r),
                decode(
                    ShapeView::List(Box::new(element@)),
                    old(self).reader.unread(),
                    old(self).depth as nat,
                ),
            ),
        decreases old(self).reader.unread().len(), 0nat, 3nat,
    {
        match self.peek_value()? {
            Token::List => {
                self.enter()?;
                let mut access = DeserializerAccess::new(self);
                let visited = access.visit_seq(element);
                self.depth = self.depth + 1;
                let items = visited?;
                assert(Value::List(items)@->List_0 =~= values_view(items@));
                Ok(Value::List(items))
            },
            _ => Err(Error::ExpectedList),
        }
    }

    /// A list of fixed arity: one element for each shape, then the end
    /// token. More elements than shapes, or fewer, are an error.
    pub fn deserialize_tuple(&mut self, shapes: &Vec<Shape>) -> (r: Result<Value>)
        ensures
            *final(final(self).reader) == *final(old(self).reader),
            Self::yields(
                *old(self),
                *final(self),
                outcome_view(r),
                decode(
                    ShapeView::Tuple(shapes_view(shapes@)),
                    old(self).reader.unread(),
                    old(self).depth as nat,
                ),
            ),
        decreases old(self).reader.unread().len(), 0nat, 3nat,
    {
        match self.peek_value()? {
            Token::List => {
                self.enter()?;
                let mut access = DeserializerAccess::new_with_len(self, shapes.len());
                let visited = access.visit_tuple(shapes);
                self.depth = self.depth + 1;
                let items = visited?;
                assert(Value::List(items)@->List_0 =~= values_view(items@));
                Ok(Value::List(items))
            },
            _ => Err(Error::ExpectedList),
        }
    }

    /// A dict: keys of the one shape, each followed by a value of the other.
    pub fn deserialize_map(&mut self, key: &Shape, value: &Shape) -> (r: Result<Value>)
        ensures
            *final(final(self).reader) == *final(old(self).reader),
            Self::yields(
                *old(self),
                *final(self),
                outcome_view(r),
                decode(
                    ShapeView::Dict(Box::new(key@), Box::new(value@)),
                    old(self).reader.unread(),
                    old(self).depth as nat,
                ),
            ),
        decreases old(self).reader.unread().len(), 0nat, 3nat,
    {
        match self.peek_value()? {
            Token::Dict => {
                self.enter()?;
                let mut access = DeserializerAccess::new(self);
                let visited = access.visit_map(key, value);
                self.depth = self.depth + 1;
                let entries = visited?;
                assert(Value::Dict(entries)@->Dict_0 =~= entries_view(entries@));
                Ok(Value::Dict(entries))
            },
            _ => Err(fail_expected_dictionary()),
        }
    }

    /// A record: a dict whose keys are the names of the fields, in their
    /// order. A field that is optional may be left out, and a key that names
    /// no field is passed over with its value.
    pub fn deserialize_struct(&mut self, fields: &Vec<(String, Shape)>) -> (r: Result<Value>)
        ensures
            *final(final(self).reader) == *final(old(self).reader),
            Self::yields(
                *old(self),
                *final(self),
                outcome_view(r),
                decode(
                    ShapeView::Record(field_shapes_view(fields@)),
                    old(self).reader.unread(),
                    old(self).depth as nat,
                ),
            ),
        decreases old(self).reader.unread().len(), 0nat, 3nat,
    {
        match self.peek_value()? {
            Token::Dict => {
                self.enter()?;
                let mut access = DeserializerAccess::new(self);
                let visited = access.visit_struct(fields);
                self.depth = self.depth + 1;
                let values = visited?;
                assert(Value::Record(values)@->Record_0 =~= fields_view(values@));
                Ok(Value::Record(values))
            },
            _ => Err(fail_expected_dictionary()),
        }
    }

    /// A variant of an enum: a bare tag for a unit variant, a dict of one
    /// entry from the tag to the payload for any other.
    pub fn deserialize_enum(&mut self, variants: &Vec<(String, Option<Shape>)>) -> (r: Result<
        Value,
    >)
        ensures
            *final(final(self).reader) == *final(old(self).reader),
            Self::yields(
                *old(self),
                *final(self),
                outcome_view(r),
                decode(
                    ShapeView::Enum(variants_view(variants@)),
                    old(self).reader.unread(),
                    old(self).depth as nat,
                ),
            ),
        decreases old(self).reader.unread().len(), 0nat, 3nat,
    {
        proof {
            reveal_with_fuel(decode, 2);
        }
        match self.peek_value()? {
            Token::Bytes => {
                let tag = self.reader.read_string()?;
                match find_variant_index(variants, &tag) {
                    None => Err(fail_unknown_variant()),
                    Some(index) => match &variants[index].1 {
                        None => Ok(Value::Variant(tag, None)),
                        Some(_) => Err(fail_expected_payload()),
                    },
                }
            },
            Token::Dict => {
                self.enter()?;
                let mut access = DeserializerAccess::new(self);
                let visited = access.visit_variant(variants);
                self.depth = self.depth + 1;
                visited
            },
            _ => Err(Error::ExpectedBytes),
        }
    }

    /// The key that stands next in a record, or `None` before its end
    /// token, which stays unread.
    fn next_field_key(&mut self) -> (r: Result<Option<String>>)
        ensures
            *final(final(self).reader) == *final(old(self).reader),
            Self::yields(
                *old(self),
                *final(self),
                outcome_with(r, |k: Option<String>| key_view(k)),
                next_key(old(self).reader.unread()),
            ),
    {
        match self.reader.peek_token()? {
            Token::End => Ok(None),
            Token::Bytes => Ok(Some(self.reader.read_string()?)),
            _ => Err(Error::ExpectedBytes),
        }
    }

    /// One value of the given shape.
    pub fn deserialize(&mut self, shape: &Shape) -> (r: Result<Value>)
        ensures
            *final(final(self).reader) == *final(old(self).reader),
            Self::yields(
                *old(self),
                *final(self),
                outcome_view(r),
                decode(shape@, old(self).reader.unread(), old(self).depth as nat),
            ),
        decreases old(self).reader.unread().len(), 1 + option_depth(shape@), 0nat,
    {
        match shape {
            Shape::Any => self.deserialize_any(),
            Shape::Int => self.deserialize_i64(),
            Shape::UInt => self.deserialize_u64(),
            Shape::Bytes => self.deserialize_bytes(),
            Shape::Text => self.deserialize_str(),
            Shape::Optional(inner) => self.deserialize_option(inner),
            Shape::List(element) => self.deserialize_seq(element),
            Shape::Tuple(shapes) => {
                assert(shape@->Tuple_0 =~= shapes_view(shapes@));
                self.deserialize_tuple(shapes)
            },
            Shape::Dict(key, value) => self.deserialize_map(key, value),
            Shape::Record(fields) => {
                assert(shape@->Record_0 =~= field_shapes_view(fields@));
                self.deserialize_struct(fields)
            },
            Shape::Enum(variants) => {
                assert(shape@->Enum_0 =~= variants_view(variants@));
                self.deserialize_enum(variants)
            },
        }
    }
}

impl<'a, 'de, R: BencodeReader> DeserializerAccess<'a, 'de, R> {
    /// An access to a list or a dict of any length.
    pub fn new(deserializer: &'a mut Deserializer<'de, R>) -> (a: Self)
        ensures
            *a.deserializer == *old(deserializer),
            *final(a.deserializer) == *final(deserializer),
            a.len is None,
    {
        DeserializerAccess { deserializer, len: None }
    }

    /// An access to a list of `len` elements.
    pub fn new_with_len(deserializer: &'a mut Deserializer<'de, R>, len: usize) -> (a: Self)
        ensures
            *a.deserializer == *old(deserializer),
            *final(a.deserializer) == *final(deserializer),
            a.len == Some(len),
    {
        DeserializerAccess { deserializer, len: Some(len) }
    }

    /// The bytes that the reader has not consumed.
    pub open spec fn unread(&self) -> Seq<u8> {
        self.deserializer.reader.unread()
    }

    /// What a call does that reads as `expected` says: see
    /// [`Deserializer::yields`].
    pub open spec fn yields<T>(
        before: Self,
        after: Self,
        got: std::result::Result<T, ErrorView>,
        expected: Decoded<T>,
    ) -> bool {
        Deserializer::yields(*before.deserializer, *after.deserializer, got, expected)
    }

    /// The next element of the list, or `None` when the list is through.
    pub fn next_element_seed(&mut self, seed: &Shape) -> (r: Result<Option<Value>>)
        ensures
            *final(final(self).deserializer) == *final(old(self).deserializer),
            *final(final(self).deserializer.reader) == *final(old(self).deserializer.reader),
            Self::yields(
                *old(self),
                *final(self),
                step_view(r),
                next_element(
                    seed@,
                    len_view(old(self).len),
                    old(self).unread(),
                    old(self).deserializer.depth as nat,
                ),
            ),
            final(self).len == (match (r, old(self).len) {
                (Ok(Some(_)), Some(n)) => Some((n - 1) as usize),
                _ => old(self).len,
            }),
        decreases old(self).unread().len() + 1, 0nat, 0nat,
    {
        match self.len {
            None => {
                match self.deserializer.reader.peek_token()? {
                    Token::End => {
                        self.deserializer.reader.consume_current_token()?;
                        Ok(None)
                    },
                    _ => Ok(Some(self.deserializer.deserialize(seed)?)),
                }
            },
            Some(len) => {
                if len == 0 {
                    return Ok(None);
                }
                let element = self.deserializer.deserialize(seed)?;
                if len == 1 {
                    self.deserializer.expect_end()?;
                }
                self.len = Some(len - 1);
                Ok(Some(element))
            },
        }
    }

    /// The elements of a list of any length, up to its end token. A
    /// declared length is set aside.
    pub fn visit_seq(&mut self, element: &Shape) -> (r: Result<Vec<Value>>)
        ensures
            *final(final(self).deserializer) == *final(old(self).deserializer),
            *final(final(self).deserializer.reader) == *final(old(self).deserializer.reader),
            Self::yields(
                *old(self),
                *final(self),
                outcome_with(r, |v: Vec<Value>| values_view(v@)),
                decode_elements(element@, old(self).unread(), old(self).deserializer.depth as nat),
            ),
        decreases old(self).unread().len() + 1, 0nat, 1nat,
    {
        let mut items: Vec<Value> = Vec::new();
        let ghost start = self.unread();
        let ghost depth = self.deserializer.depth as nat;
        self.len = None;
        loop
            invariant
                self.len is None,
                start == old(self).unread(),
                depth == old(self).deserializer.depth,
                self.deserializer.depth == depth,
                self.deserializer.reader.reliable() == old(self).deserializer.reader.reliable(),
                *final(self.deserializer) == *final(old(self).deserializer),
                *final(self.deserializer.reader) == *final(old(self).deserializer.reader),
                self.unread().len() <= start.len(),
                prepend_all(values_view(items@), decode_elements(element@, self.unread(), depth))
                    == decode_elements(element@, start, depth),
            decreases self.unread().len(),
        {
            let ghost before = self.unread();
            proof {
                lemma_decode_shrinks(element@, before, depth);
            }
            match self.next_element_seed(element) {
                Err(e) => {
                    return Err(e);
                },
                Ok(None) => {
                    assert(values_view(items@) + Seq::<ValueView>::empty() =~= values_view(
                        items@,
                    ));
                    return Ok(items);
                },
                Ok(Some(item)) => {
                    let ghost earlier = items@;
                    items.push(item);
                    proof {
                        assert(values_view(items@) =~= values_view(earlier).push(item@));
                        lemma_prepend_all_push(
                            values_view(earlier),
                            item@,
                            decode_elements(element@, self.unread(), depth),
                        );
                    }
                },
            }
        }
    }

    /// The elements of a list of fixed arity, one for each shape, and its
    /// end token. The declared length becomes the number of the shapes.
    pub fn visit_tuple(&mut self, shapes: &Vec<Shape>) -> (r: Result<Vec<Value>>)
        ensures
            *final(final(self).deserializer) == *final(old(self).deserializer),
            *final(final(self).deserializer.reader) == *final(old(self).deserializer.reader),
            Self::yields(
                *old(self),
                *final(self),
                outcome_with(r, |v: Vec<Value>| values_view(v@)),
                decode_tuple(
                    shapes_view(shapes@),
                    0,
                    old(self).unread(),
                    old(self).deserializer.depth as nat,
                ),
            ),
        decreases old(self).unread().len() + 1, 0nat, 1nat,
    {
        let mut items: Vec<Value> = Vec::new();
        let ghost start = self.unread();
        let ghost views = shapes_view(shapes@);
        let ghost depth = self.deserializer.depth as nat;
        self.len = Some(shapes.len());
        proof {
            reveal_with_fuel(decode_tuple, 2);
        }
        if shapes.len() == 0 {
            self.deserializer.expect_end()?;
            assert(values_view(items@) =~= Seq::<ValueView>::empty());
            return Ok(items);
        }
        let mut i: usize = 0;
        while i < shapes.len()
            invariant
                i <= shapes.len(),
                shapes.len() > 0,
                views == shapes_view(shapes@),
                start == old(self).unread(),
                depth == old(self).deserializer.depth,
                self.deserializer.depth == depth,
                self.deserializer.reader.reliable() == old(self).deserializer.reader.reliable(),
                *final(self.deserializer) == *final(old(self).deserializer),
                *final(self.deserializer.reader) == *final(old(self).deserializer.reader),
                self.len == Some((shapes.len() - i) as usize),
                self.unread().len() <= start.len(),
                i < shapes.len() ==> prepend_all(
                    values_view(items@),
                    decode_tuple(views, i as int, self.unread(), depth),
                ) == decode_tuple(views, 0, start, depth),
                i == shapes.len() ==> (
                    Ok::<Seq<ValueView>, ErrorView>(values_view(items@)),
                    self.unread(),
                ) == decode_tuple(views, 0, start, depth),
            decreases shapes.len() - i,
        {
            let ghost before = self.unread();
            proof {
                reveal_with_fuel(decode_tuple, 2);
                lemma_decode_shrinks(views[i as int], before, depth);
                assert(views[i as int] == shapes@[i as int]@);
            }
            match self.next_element_seed(&shapes[i]) {
                Err(e) => {
                    return Err(e);
                },
                // An element was still to come: the step yields one or fails.
                Ok(None) => unreached(),
                Ok(Some(item)) => {
                    let ghost earlier = items@;
                    items.push(item);
                    proof {
                        assert(values_view(items@) =~= values_view(earlier).push(item@));
                        if i + 1 < shapes.len() {
                            lemma_prepend_all_push(
                                values_view(earlier),
                                item@,
                                decode_tuple(views, i + 1, self.unread(), depth),
                            );
                        } else {
                            assert(values_view(earlier) + (seq![item@] + Seq::<
                                ValueView,
                            >::empty()) =~= values_view(items@));
                        }
                    }
                },
            }
            i = i + 1;
        }
        Ok(items)
    }

    /// The next key of the dict, or `None` when the dict is through.
    pub fn next_key_seed(&mut self, seed: &Shape) -> (r: Result<Option<Value>>)
        ensures
            *final(final(self).deserializer) == *final(old(self).deserializer),
            *final(final(self).deserializer.reader) == *final(old(self).deserializer.reader),
            Self::yields(
                *old(self),
                *final(self),
                step_view(r),
                next_element(seed@, None, old(self).unread(), old(self).deserializer.depth as nat),
            ),
            final(self).len == old(self).len,
        decreases old(self).unread().len() + 1, 0nat, 0nat,
    {
        match self.deserializer.reader.peek_token()? {
            Token::End => {
                self.deserializer.reader.consume_current_token()?;
                Ok(None)
            },
            _ => Ok(Some(self.deserializer.deserialize(seed)?)),
        }
    }

    /// The value that belongs to the key that was read last.
    pub fn next_value_seed(&mut self, seed: &Shape) -> (r: Result<Value>)
        ensures
            *final(final(self).deserializer) == *final(old(self).deserializer),
            *final(final(self).deserializer.reader) == *final(old(self).deserializer.reader),
            Self::yields(
                *old(self),
                *final(self),
                outcome_view(r),
                decode(seed@, old(self).unread(), old(self).deserializer.depth as nat),
            ),
            final(self).len == old(self).len,
        decreases old(self).unread().len() + 1, 0nat, 0nat,
    {
        self.deserializer.deserialize(seed)
    }

    /// The entries of a dict, up to its end token.
    pub fn visit_map(&mut self, key: &Shape, value: &Shape) -> (r: Result<Vec<(Value, Value)>>)
        ensures
            *final(final(self).deserializer) == *final(old(self).deserializer),
            *final(final(self).deserializer.reader) == *final(old(self).deserializer.reader),
            Self::yields(
                *old(self),
                *final(self),
                outcome_with(r, |v: Vec<(Value, Value)>| entries_view(v@)),
                decode_entries(
                    key@,
                    value@,
                    old(self).unread(),
                    old(self).deserializer.depth as nat,
                ),
            ),
        decreases old(self).unread().len() + 1, 0nat, 1nat,
    {
        let mut entries: Vec<(Value, Value)> = Vec::new();
        let ghost start = self.unread();
        let ghost depth = self.deserializer.depth as nat;
        loop
            invariant
                start == old(self).unread(),
                depth == old(self).deserializer.depth,
                self.deserializer.depth == depth,
                self.deserializer.reader.reliable() == old(self).deserializer.reader.reliable(),
                *final(self.deserializer) == *final(old(self).deserializer),
                *final(self.deserializer.reader) == *final(old(self).deserializer.reader),
                self.unread().len() <= start.len(),
                prepend_all(
                    entries_view(entries@),
                    decode_entries(key@, value@, self.unread(), depth),
                )
                    == decode_entries(key@, value@, start, depth),
            decreases self.unread().len(),
        {
            let ghost before = self.unread();
            proof {
                lemma_decode_shrinks(key@, before, depth);
            }
            let k = match self.next_key_seed(key) {
                Err(e) => {
                    return Err(e);
                },
                Ok(None) => {
                    assert(entries_view(entries@) + Seq::<(ValueView, ValueView)>::empty()
                        =~= entries_view(entries@));
                    return Ok(entries);
                },
                Ok(Some(k)) => k,
            };
            proof {
                lemma_decode_shrinks(value@, self.unread(), depth);
            }
            let v = self.next_value_seed(value)?;
            let ghost earlier = entries@;
            let ghost pair = (k@, v@);
            entries.push((k, v));
            proof {
                assert(entries_view(entries@) =~= entries_view(earlier).push(pair));
                lemma_prepend_all_push(
                    entries_view(earlier),
                    pair,
                    decode_entries(key@, value@, self.unread(), depth),
                );
            }
        }
    }

    /// The fields of a record, in their order, up to its end token. Keys
    /// that name no field are passed over with their values.
    pub fn visit_struct(&mut self, fields: &Vec<(String, Shape)>) -> (r: Result<
        Vec<(String, Value)>,
    >)
        ensures
            *final(final(self).deserializer) == *final(old(self).deserializer),
            *final(final(self).deserializer.reader) == *final(old(self).deserializer.reader),
            Self::yields(
                *old(self),
                *final(self),
                outcome_with(r, |v: Vec<(String, Value)>| fields_view(v@)),
                decode_record(
                    field_shapes_view(fields@),
                    old(self).unread(),
                    old(self).deserializer.depth as nat,
                ),
            ),
        decreases old(self).unread().len() + 1, 0nat, 1nat,
    {
        let ghost start = self.unread();
        let ghost views = field_shapes_view(fields@);
        let ghost depth = self.deserializer.depth as nat;
        proof {
            lemma_next_key_shrinks(start);
        }
        let mut pending = self.deserializer.next_field_key()?;
        let ghost target = decode_fields(views, 0, key_view(pending), self.unread(), depth);
        let mut values: Vec<(String, Value)> = Vec::new();
        let mut i: usize = 0;
        loop
            invariant
                i <= fields.len(),
                start == old(self).unread(),
                views == field_shapes_view(fields@),
                depth == old(self).deserializer.depth,
                self.deserializer.depth == depth,
                self.deserializer.reader.reliable() == old(self).deserializer.reader.reliable(),
                *final(self.deserializer) == *final(old(self).deserializer),
                *final(self.deserializer.reader) == *final(old(self).deserializer.reader),
                self.unread().len() <= start.len(),
                target == decode_record(views, start, depth),
                prepend_all(
                    fields_view(values@),
                    decode_fields(views, i as int, key_view(pending), self.unread(), depth),
                ) == target,
            decreases self.unread().len(), fields.len() - i,
        {
            let ghost before = self.unread();
            let ghost earlier = values@;
            let here = i < fields.len();
            if here {
                assert(views[i as int] == (fields@[i as int].0@, fields@[i as int].1@));
            }
            let present = here && match &pending {
                Some(key) => *key == fields[i].0,
                None => false,
            };
            let unknown = !present && match &pending {
                Some(key) => find_field_index(fields, key, 0).is_none(),
                None => false,
            };
            if present {
                proof {
                    lemma_decode_shrinks(views[i as int].1, before, depth);
                }
                let value = self.deserializer.deserialize(&fields[i].1)?;
                proof {
                    lemma_next_key_shrinks(self.unread());
                }
                pending = self.deserializer.next_field_key()?;
                let ghost entry = (fields@[i as int].0@, value@);
                values.push((fields[i].0.clone(), value));
                proof {
                    assert(fields_view(values@) =~= fields_view(earlier).push(entry));
                    lemma_prepend_all_push(
                        fields_view(earlier),
                        entry,
                        decode_fields(views, i + 1, key_view(pending), self.unread(), depth),
                    );
                }
                i = i + 1;
            } else if unknown {
                proof {
                    lemma_decode_shrinks(ShapeView::Any, before, depth);
                }
                self.deserializer.deserialize_any()?;
                proof {
                    lemma_next_key_shrinks(self.unread());
                }
                pending = self.deserializer.next_field_key()?;
            } else if here {
                let passed = match &pending {
                    Some(key) => find_field_index(fields, key, i + 1).is_none(),
                    None => false,
                };
                if passed {
                    return Err(fail_unexpected_key());
                }
                match &fields[i].1 {
                    Shape::Optional(_) => {
                        let ghost entry = (fields@[i as int].0@, ValueView::Absent);
                        values.push((fields[i].0.clone(), Value::Absent));
                        proof {
                            assert(fields_view(values@) =~= fields_view(earlier).push(entry));
                            lemma_prepend_all_push(
                                fields_view(earlier),
                                entry,
                                decode_fields(
                                    views,
                                    i + 1,
                                    key_view(pending),
                                    self.unread(),
                                    depth,
                                ),
                            );
                        }
                    },
                    _ => {
                        return Err(fail_missing_field());
                    },
                }
                i = i + 1;
            } else {
                return match pending {
                    None => {
                        self.deserializer.reader.consume_current_token()?;
                        assert(fields_view(values@) + Seq::<(Seq<char>, ValueView)>::empty()
                            =~= fields_view(values@));
                        Ok(values)
                    },
                    Some(_) => Err(fail_unexpected_key()),
                };
            }
        }
    }

    /// The tag of a variant that is written as a dict.
    pub fn variant_seed(&mut self) -> (r: Result<String>)
        ensures
            *final(final(self).deserializer) == *final(old(self).deserializer),
            *final(final(self).deserializer.reader) == *final(old(self).deserializer.reader),
            Self::yields(
                *old(self),
                *final(self),
                outcome_view(r),
                variant_tag(old(self).unread()),
            ),
            final(self).len == old(self).len,
    {
        match self.deserializer.next_field_key()? {
            None => Err(fail_unexpected_end()),
            Some(tag) => Ok(tag),
        }
    }

    /// A variant that is written as a dict, whose `d` has been consumed: the
    /// tag, the payload, and the end token.
    pub fn visit_variant(&mut self, variants: &Vec<(String, Option<Shape>)>) -> (r: Result<Value>)
        ensures
            *final(final(self).deserializer) == *final(old(self).deserializer),
            *final(final(self).deserializer.reader) == *final(old(self).deserializer.reader),
            Self::yields(
                *old(self),
                *final(self),
                outcome_view(r),
                decode_payload_variant(
                    variants_view(variants@),
                    old(self).unread(),
                    old(self).deserializer.depth as nat,
                ),
            ),
        decreases old(self).unread().len() + 1, 0nat, 1nat,
    {
        proof {
            lemma_next_key_shrinks(self.unread());
        }
        let tag = self.variant_seed()?;
        match find_variant_index(variants, &tag) {
            None => Err(fail_unknown_variant()),
            Some(index) => match &variants[index].1 {
                None => Err(fail_expected_unit_variant()),
                Some(payload) => {
                    let value = self.newtype_variant_seed(payload)?;
                    Ok(Value::Variant(tag, Some(Box::new(value))))
                },
            },
        }
    }

    /// A unit variant has no payload: nothing is read.
    pub fn unit_variant(&mut self) -> (r: Result<()>)
        ensures
            r is Ok,
            *final(self) == *old(self),
    {
        Ok(())
    }

    /// The payload of a variant, and the end token of its dict.
    pub fn newtype_variant_seed(&mut self, seed: &Shape) -> (r: Result<Value>)
        ensures
            *final(final(self).deserializer) == *final(old(self).deserializer),
            *final(final(self).deserializer.reader) == *final(old(self).deserializer.reader),
            Self::yields(
                *old(self),
                *final(self),
                outcome_view(r),
                payload(seed@, old(self).unread(), old(self).deserializer.depth as nat),
            ),
            final(self).len == old(self).len,
        decreases old(self).unread().len() + 1, 0nat, 0nat,
    {
        let value = self.deserializer.deserialize(seed)?;
        self.deserializer.expect_end()?;
        Ok(value)
    }

    /// The payload of a tuple variant, a list of fixed arity, and the end
    /// token of its dict.
    pub fn tuple_variant(&mut self, shapes: &Vec<Shape>) -> (r: Result<Value>)
        ensures
            *final(final(self).deserializer) == *final(old(self).deserializer),
            *final(final(self).deserializer.reader) == *final(old(self).deserializer.reader),
            Self::yields(
                *old(self),
                *final(self),
                outcome_view(r),
                payload(
                    ShapeView::Tuple(shapes_view(shapes@)),
                    old(self).unread(),
                    old(self).deserializer.depth as nat,
                ),
            ),
            final(self).len == old(self).len,
        decreases old(self).unread().len() + 1, 0nat, 0nat,
    {
        let value = self.deserializer.deserialize_tuple(shapes)?;
        self.deserializer.expect_end()?;
        Ok(value)
    }

    /// The payload of a variant with named fields: on the wire it is a list
    /// of fixed arity, one element for each field.
    pub fn struct_variant(&mut self, fields: &Vec<Shape>) -> (r: Result<Value>)
        ensures
            *final(final(self).deserializer) == *final(old(self).deserializer),
            *final(final(self).deserializer.reader) == *final(old(self).deserializer.reader),
            Self::yields(
                *old(self),
                *final(self),
                outcome_view(r),
                payload(
                    ShapeView::Tuple(shapes_view(fields@)),
                    old(self).unread(),
                    old(self).deserializer.depth as nat,
                ),
            ),
            final(self).len == old(self).len,
        decreases old(self).unread().len() + 1, 0nat, 0nat,
    {
        self.tuple_variant(fields)
    }
}

/// The position of the first field at `from` or after that is called `name`.
pub fn find_field_index(fields: &Vec<(String, Shape)>, name: &String, from: usize) -> (r: Option<
    usize,
>)
    ensures
        r is Some <==> named_from(field_shapes_view(fields@), from as int, name@),
        r matches Some(j) ==> from <= j < fields.len() && fields@[j as int].0@ == name@,
{
    let ghost views = field_shapes_view(fields@);
    let mut j: usize = from;
    while j < fields.len()
        invariant
            from <= j,
            views == field_shapes_view(fields@),
            forall|k: int| from <= k < j && k < fields.len() ==> (#[trigger] views[k]).0 != name@,
        decreases fields.len() - j,
    {
        assert(views[j as int].0 == fields@[j as int].0@);
        if fields[j].0 == *name {
            return Some(j);
        }
        j = j + 1;
    }
    None
}

/// The position of the first variant that is called `tag`.
pub fn find_variant_index(variants: &Vec<(String, Option<Shape>)>, tag: &String) -> (r: Option<
    usize,
>)
    ensures
        r is None ==> find_variant(variants_view(variants@), tag@) is None,
        r matches Some(i) ==> i < variants.len() && variants@[i as int].0@ == tag@ && find_variant(
            variants_view(variants@),
            tag@,
        ) == Some(payload_view(variants@[i as int].1)),
{
    let ghost views = variants_view(variants@);
    assert(views.skip(0) =~= views);
    let mut i: usize = 0;
    while i < variants.len()
        invariant
            i <= variants.len(),
            views == variants_view(variants@),
            find_variant(views.skip(i as int), tag@) == find_variant(views, tag@),
        decreases variants.len() - i,
    {
        assert(views.skip(i as int)[0] == views[i as int]);
        if variants[i].0 == *tag {
            return Some(i);
        }
        assert(views.skip(i as int).skip(1) =~= views.skip(i + 1));
        i = i + 1;
    }
    assert(views.skip(i as int).len() == 0);
    None
}

/// The view of a key that may have been read.
pub open spec fn key_view(key: Option<String>) -> Option<Seq<char>> {
    match key {
        Some(k) => Some(k@),
        None => None,
    }
}

/// The tag at the start of a variant in dict form: a key has to stand there.
pub open spec fn variant_tag(s: Seq<u8>) -> Decoded<Seq<char>> {
    match next_key(s) {
        (Err(e), rest) => (Err(e), rest),
        (Ok(None), rest) => (Err(unexpected_end()), rest),
        (Ok(Some(tag)), rest) => (Ok(tag), rest),
    }
}

/// The payload of a variant in dict form, and the end token of the dict.
pub open spec fn payload(seed: ShapeView, s: Seq<u8>, depth: nat) -> Decoded<ValueView> {
    match decode(seed, s, depth) {
        (Err(e), rest) => (Err(e), rest),
        (Ok(p), rest) => match close(rest) {
            (Ok(_), rest2) => (Ok(p), rest2),
            (Err(e), rest2) => (Err(e), rest2),
        },
    }
}

/// Decodes one value of the given shape that has to be the whole input, and
/// follows it [`MAX_DEPTH`] levels deep.
/// Bytes that are left after it are an error, and the error holds them.
pub fn from_reader<R: BencodeReader>(reader: &mut R, shape: &Shape) -> (r: Result<Value>)
    ensures
        final(reader).reliable() == old(reader).reliable(),
        reads_as(
            old(reader).reliable(),
            (
                decode_all(shape@, old(reader).unread(), MAX_DEPTH as nat),
                decode(shape@, old(reader).unread(), MAX_DEPTH as nat).1,
            ),
            (outcome_view(r), final(reader).unread()),
        ),
{
    let mut deserializer = Deserializer::from_reader(reader);
    let value = deserializer.deserialize(shape)?;
    if deserializer.reader.has_tokens_left()? {
        let rest = deserializer.reader.read()?;
        Err(Error::from_trailing_data(rest))
    } else {
        Ok(value)
    }
}

/// An alias of `from_reader`.
pub fn from_buffer<R: BencodeReader>(reader: &mut R, shape: &Shape) -> (r: Result<Value>)
    ensures
        final(reader).reliable() == old(reader).reliable(),
        reads_as(
            old(reader).reliable(),
            (
                decode_all(shape@, old(reader).unread(), MAX_DEPTH as nat),
                decode(shape@, old(reader).unread(), MAX_DEPTH as nat).1,
            ),
            (outcome_view(r), final(reader).unread()),
        ),
{
    from_reader(reader, shape)
}

/// The outcome with all of `first` put before the values.
pub open spec fn prepend_all<T>(first: Seq<T>, d: Decoded<Seq<T>>) -> Decoded<Seq<T>> {
    match d {
        (Ok(vs), rest) => (Ok(first + vs), rest),
        (Err(e), rest) => (Err(e), rest),
    }
}

/// Putting `first` and then `next` before the values is putting
/// `first.push(next)` before them.
pub proof fn lemma_prepend_all_push<T>(first: Seq<T>, next: T, d: Decoded<Seq<T>>)
    ensures
        prepend_all(first, prepend(next, d)) == prepend_all(first.push(next), d),
{
    match d {
        (Ok(vs), rest) => {
            assert(first + (seq![next] + vs) =~= first.push(next) + vs);
        },
        (Err(e), rest) => {},
    }
}

} // verus!
