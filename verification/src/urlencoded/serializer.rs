//! The query-string serializer: from a value descriptor to a query value.

use crate::bencode::value::{within, Value as Source, ValueView as SourceView, MAX_DEPTH};
use crate::text::{ascii_chars, decimal, decimal_digits};
use crate::urlencoded::value::{escaped, render, values_view, Value, ValueView};
use vstd::prelude::*;
use vstd::string::StringExecFns;
use vstd::utf8::encode_utf8;

verus! {

/// Why a value could not be written as a query value.
#[derive(Debug, PartialEq)]
pub enum Error {
    Custom(String),
}

impl Error {
    /// The error as a line of text: its message.
    pub fn to_string(&self) -> (r: String)
        ensures
            r@ == self.message(),
    {
        match self {
            Error::Custom(msg) => msg.clone(),
        }
    }

    /// What the error says.
    pub open spec fn message(&self) -> Seq<char> {
        match self {
            Error::Custom(msg) => msg@,
        }
    }
}

/// What is said of a value that the format has no form for: a dict, a
/// record, or a variant with a payload.
pub open spec fn unsupported() -> Seq<char> {
    "unsupported value"@
}

/// The query value of a value descriptor, or the complaint about it.
///
/// Numbers are written in decimal, text escaped with the unreserved
/// characters left to stand, bytes escaped one and all. An absent value is
/// empty, a present one is the value itself, a list is the list of its
/// items' query values, and a unit variant is its tag.
pub open spec fn query_value(v: SourceView) -> std::result::Result<ValueView, Seq<char>>
    decreases v, 0nat,
{
    match v {
        SourceView::Int(i) => Ok(ValueView::Text(ascii_chars(decimal(i as int)))),
        SourceView::UInt(u) => Ok(ValueView::Text(ascii_chars(decimal_digits(u as nat)))),
        SourceView::Bytes(b) => Ok(ValueView::Text(escaped(b, false))),
        SourceView::Text(t) => Ok(ValueView::Text(escaped(encode_utf8(t), true))),
        SourceView::Absent => Ok(ValueView::Empty),
        SourceView::Present(p) => query_value(*p),
        SourceView::List(items) => match query_values(items) {
            Ok(vs) => Ok(ValueView::List(vs)),
            Err(e) => Err(e),
        },
        SourceView::Variant(tag, None) => Ok(ValueView::Text(escaped(encode_utf8(tag), true))),
        _ => Err(unsupported()),
    }
}

/// The query values of the items, or the complaint about the first of them
/// that has none.
pub open spec fn query_values(items: Seq<SourceView>) -> std::result::Result<
    Seq<ValueView>,
    Seq<char>,
>
    decreases items, 0nat,
{
    if items.len() == 0 {
        Ok(Seq::empty())
    } else {
        match query_values(items.drop_last()) {
            Err(e) => Err(e),
            Ok(vs) => match query_value(items.last()) {
                Ok(v) => Ok(vs.push(v)),
                Err(e) => Err(e),
            },
        }
    }
}

/// What is said of a value that nests deeper than it is followed.
pub open spec fn too_deep() -> Seq<char> {
    "nesting too deep"@
}

/// The query value of a value descriptor that nests no deeper than
/// [`MAX_DEPTH`] levels, and the complaint about one that does.
pub open spec fn checked_query_value(v: SourceView) -> std::result::Result<ValueView, Seq<char>> {
    if within(v, MAX_DEPTH as nat) {
        query_value(v)
    } else {
        Err(too_deep())
    }
}

/// How a call ended, with the value and the error taken by what they say.
pub open spec fn outcome(r: std::result::Result<Value, Error>) -> std::result::Result<
    ValueView,
    Seq<char>,
> {
    match r {
        Ok(v) => Ok(v@),
        Err(e) => Err(e.message()),
    }
}

/// The serializer. It holds no state: every call stands for itself.
pub struct Serializer {}

/// A list in the making: the items that were serialized so far.
pub struct SeqSerializer<'a> {
    pub ser: &'a Serializer,
    pub values: Vec<Value>,
}

impl Serializer {
    pub fn new() -> Self {
        Serializer {  }
    }

    pub fn serialize_bool(&self, v: bool) -> (r: std::result::Result<Value, Error>)
        ensures
            outcome(r) == Ok::<ValueView, Seq<char>>(
                ValueView::Text(
                    if v {
                        "true"@
                    } else {
                        "false"@
                    },
                ),
            ),
    {
        Ok(Value::from_bool(v))
    }

    pub fn serialize_i8(&self, v: i8) -> (r: std::result::Result<Value, Error>)
        ensures
            outcome(r) == query_value(SourceView::Int(v as i64)),
    {
        self.serialize_i64(v as i64)
    }

    pub fn serialize_i16(&self, v: i16) -> (r: std::result::Result<Value, Error>)
        ensures
            outcome(r) == query_value(SourceView::Int(v as i64)),
    {
        self.serialize_i64(v as i64)
    }

    pub fn serialize_i32(&self, v: i32) -> (r: std::result::Result<Value, Error>)
        ensures
            outcome(r) == query_value(SourceView::Int(v as i64)),
    {
        self.serialize_i64(v as i64)
    }

    pub fn serialize_i64(&self, v: i64) -> (r: std::result::Result<Value, Error>)
        ensures
            outcome(r) == query_value(SourceView::Int(v)),
    {
        Ok(Value::from_i64(v))
    }

    pub fn serialize_u8(&self, v: u8) -> (r: std::result::Result<Value, Error>)
        ensures
            outcome(r) == query_value(SourceView::UInt(v as u64)),
    {
        self.serialize_u64(v as u64)
    }

    pub fn serialize_u16(&self, v: u16) -> (r: std::result::Result<Value, Error>)
        ensures
            outcome(r) == query_value(SourceView::UInt(v as u64)),
    {
        self.serialize_u64(v as u64)
    }

    pub fn serialize_u32(&self, v: u32) -> (r: std::result::Result<Value, Error>)
        ensures
            outcome(r) == query_value(SourceView::UInt(v as u64)),
    {
        self.serialize_u64(v as u64)
    }

    pub fn serialize_u64(&self, v: u64) -> (r: std::result::Result<Value, Error>)
        ensures
            outcome(r) == query_value(SourceView::UInt(v)),
    {
        Ok(Value::from_u64(v))
    }

    pub fn serialize_char(&self, v: char) -> (r: std::result::Result<Value, Error>)
        ensures
            outcome(r) == query_value(SourceView::Text(seq![v])),
    {
        Ok(Value::from_char(v))
    }

    pub fn serialize_str(&self, v: &str) -> (r: std::result::Result<Value, Error>)
        ensures
            outcome(r) == query_value(SourceView::Text(v@)),
    {
        Ok(Value::from_text(v))
    }

    pub fn serialize_bytes(&self, v: &[u8]) -> (r: std::result::Result<Value, Error>)
        ensures
            outcome(r) == query_value(SourceView::Bytes(v@)),
    {
        Ok(Value::from_bytes(v))
    }

    pub fn serialize_none(&self) -> (r: std::result::Result<Value, Error>)
        ensures
            outcome(r) == Ok::<ValueView, Seq<char>>(ValueView::Empty),
    {
        Ok(Value::Empty)
    }

    /// A present optional value is written as the value itself.
    pub fn serialize_some(&self, value: &Source) -> (r: std::result::Result<Value, Error>)
        ensures
            outcome(r) == checked_query_value(value@),
    {
        self.serialize(value)
    }

    pub fn serialize_unit(&self) -> (r: std::result::Result<Value, Error>)
        ensures
            outcome(r) == Ok::<ValueView, Seq<char>>(ValueView::Empty),
    {
        Ok(Value::Empty)
    }

    pub fn serialize_unit_struct(&self, _name: &str) -> (r: std::result::Result<Value, Error>)
        ensures
            outcome(r) == Ok::<ValueView, Seq<char>>(ValueView::Empty),
    {
        self.serialize_unit()
    }

    /// A unit variant is written as its tag.
    pub fn serialize_unit_variant(&self, variant: &str) -> (r: std::result::Result<Value, Error>)
        ensures
            outcome(r) == query_value(SourceView::Variant(variant@, None)),
    {
        self.serialize_str(variant)
    }

    /// A newtype struct is written as what it wraps.
    pub fn serialize_newtype_struct(&self, _name: &str, value: &Source) -> (r: std::result::Result<
        Value,
        Error,
    >)
        ensures
            outcome(r) == checked_query_value(value@),
    {
        self.serialize(value)
    }

    /// Begins a list; room for `len` items is set aside where it is known.
    pub fn serialize_seq<'a>(&'a self, len: Option<usize>) -> (s: SeqSerializer<'a>)
        ensures
            s.ser == self,
            s.values@.len() == 0,
    {
        match len {
            Some(len) => SeqSerializer::new_with_capacity(self, len),
            None => SeqSerializer::new(self),
        }
    }

    /// Begins a list for a tuple of `len` items.
    pub fn serialize_tuple<'a>(&'a self, len: usize) -> (s: SeqSerializer<'a>)
        ensures
            s.ser == self,
            s.values@.len() == 0,
    {
        SeqSerializer::new_with_capacity(self, len)
    }

    /// A value that the format has no form for.
    fn refuse(&self) -> (r: std::result::Result<Value, Error>)
        ensures
            outcome(r) == Err::<ValueView, Seq<char>>(unsupported()),
    {
        Err(Error::Custom(String::from_str("unsupported value")))
    }

    /// The query value of one value descriptor. A value that nests deeper
    /// than [`MAX_DEPTH`] levels is refused.
    pub fn serialize(&self, value: &Source) -> (r: std::result::Result<Value, Error>)
        ensures
            outcome(r) == checked_query_value(value@),
    {
        if !value.is_within(MAX_DEPTH) {
            return Err(Error::Custom(String::from_str("nesting too deep")));
        }
        self.convert(value, MAX_DEPTH)
    }

    /// The query value of a value descriptor that nests no deeper than
    /// `depth`; the conversion goes no deeper than that itself.
    fn convert(&self, value: &Source, depth: usize) -> (r: std::result::Result<Value, Error>)
        requires
            within(value@, depth as nat),
        ensures
            outcome(r) == query_value(value@),
        decreases depth,
    {
        match value {
            Source::Int(i) => self.serialize_i64(*i),
            Source::UInt(u) => self.serialize_u64(*u),
            Source::Bytes(b) => self.serialize_bytes(b.as_slice()),
            Source::Text(t) => self.serialize_str(t.as_str()),
            Source::Absent => self.serialize_none(),
            Source::Present(inner) => self.convert(inner, depth - 1),
            Source::List(items) => {
                let ghost views = value@->List_0;
                let mut values: Vec<Value> = Vec::with_capacity(items.len());
                let mut i: usize = 0;
                assert(views.take(0) =~= Seq::<SourceView>::empty());
                assert(values_view(values@) =~= Seq::<ValueView>::empty());
                while i < items.len()
                    invariant
                        i <= items.len(),
                        value@ == SourceView::List(views),
                        views.len() == items.len(),
                        forall|k: int| 0 <= k < items.len() ==> views[k] == items@[k]@,
                        depth > 0,
                        forall|k: int|
                            0 <= k < items.len() ==> within(
                                #[trigger] views[k],
                                (depth - 1) as nat,
                            ),
                        query_values(views.take(i as int)) == Ok::<Seq<ValueView>, Seq<char>>(
                            values_view(values@),
                        ),
                    decreases items.len() - i,
                {
                    proof {
                        assert(views.take(i + 1).drop_last() =~= views.take(i as int));
                        assert(views.take(i + 1).last() == views[i as int]);
                    }
                    assert(views[i as int] == items@[i as int]@);
                    match self.convert(&items[i], depth - 1) {
                        Ok(item) => {
                            let ghost earlier = values@;
                            let ghost view = item@;
                            values.push(item);
                            assert(values_view(values@) =~= values_view(earlier).push(view));
                        },
                        Err(e) => {
                            proof {
                                lemma_query_values_fail(views, i as int);
                            }
                            return Err(e);
                        },
                    }
                    i = i + 1;
                }
                assert(views.take(i as int) =~= views);
                Ok(Value::from_list(values))
            },
            Source::Variant(tag, None) => self.serialize_unit_variant(tag.as_str()),
            _ => self.refuse(),
        }
    }
}

/// Where the item at `i` has no query value and those before it have, the
/// whole list has none, with the same complaint.
pub proof fn lemma_query_values_fail(items: Seq<SourceView>, i: int)
    requires
        0 <= i < items.len(),
        query_values(items.take(i)) is Ok,
        query_value(items[i]) is Err,
    ensures
        query_values(items) == Err::<Seq<ValueView>, Seq<char>>(query_value(items[i])->Err_0),
    decreases items.len(),
{
    if i == items.len() - 1 {
        assert(items.drop_last() =~= items.take(i));
    } else {
        let front = items.drop_last();
        assert(front.take(i) =~= items.take(i));
        assert(front[i] == items[i]);
        lemma_query_values_fail(front, i);
    }
}

impl<'a> SeqSerializer<'a> {
    pub fn new(ser: &'a Serializer) -> (s: Self)
        ensures
            s.ser == ser,
            s.values@.len() == 0,
    {
        SeqSerializer { ser, values: Vec::new() }
    }

    pub fn new_with_capacity(ser: &'a Serializer, capacity: usize) -> (s: Self)
        ensures
            s.ser == ser,
            s.values@.len() == 0,
    {
        SeqSerializer { ser, values: Vec::with_capacity(capacity) }
    }

    /// Serializes one more item of the list. An item that has no query value
    /// leaves the list as it was.
    pub fn serialize_element(&mut self, value: &Source) -> (r: std::result::Result<(), Error>)
        ensures
            match checked_query_value(value@) {
                Ok(v) => r is Ok && values_view(final(self).values@) == values_view(
                    old(self).values@,
                ).push(v),
                Err(e) => r matches Err(err) && err.message() == e && final(self).values@ == old(
                    self,
                ).values@,
            },
    {
        let item = self.ser.serialize(value)?;
        let ghost earlier = self.values@;
        let ghost view = item@;
        self.values.push(item);
        assert(values_view(self.values@) =~= values_view(earlier).push(view));
        Ok(())
    }

    /// The list of the items that were serialized.
    pub fn end(self) -> (r: std::result::Result<Value, Error>)
        ensures
            outcome(r) == Ok::<ValueView, Seq<char>>(ValueView::List(values_view(self.values@))),
    {
        Ok(Value::from_list(self.values))
    }
}

/// The query string of a value descriptor.
pub fn to_string(value: &Source) -> (r: std::result::Result<String, Error>)
    ensures
        match checked_query_value(value@) {
            Ok(v) => r matches Ok(s) && s@ == render(v),
            Err(e) => r matches Err(err) && err.message() == e,
        },
{
    let serializer = Serializer::new();
    match serializer.serialize(value) {
        Ok(v) => Ok(v.to_string()),
        Err(e) => Err(e),
    }
}

} // verus!
