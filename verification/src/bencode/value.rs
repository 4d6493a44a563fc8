//! The value descriptor: how a caller's typed value presents itself to the
//! codec, and the shape that a decode asks for.

use crate::bencode::tokens::{TOKEN_DICT, TOKEN_END, TOKEN_LIST};
use crate::bencode::writer::{byte_string_bytes, integer_bytes};
use vstd::prelude::*;
use vstd::utf8::encode_utf8;

verus! {

/// A structured value as the codec sees it.
///
/// A list stands for a sequence of any length and for a tuple alike; a dict
/// for a map; a record for named fields in their declared order. A variant
/// without a payload is a unit variant; one whose payload is a list is a
/// tuple variant.
#[derive(Debug, PartialEq, Eq)]
pub enum Value {
    Int(i64),
    UInt(u64),
    Bytes(Vec<u8>),
    Text(String),
    /// An optional value that is not there. It has no encoding of its own.
    Absent,
    /// An optional value that is there. It is encoded as the value itself.
    Present(Box<Value>),
    List(Vec<Value>),
    Dict(Vec<(Value, Value)>),
    Record(Vec<(String, Value)>),
    Variant(String, Option<Box<Value>>),
}

/// The mathematical model of a [`Value`].
pub enum ValueView {
    Int(i64),
    UInt(u64),
    Bytes(Seq<u8>),
    Text(Seq<char>),
    Absent,
    Present(Box<ValueView>),
    List(Seq<ValueView>),
    Dict(Seq<(ValueView, ValueView)>),
    Record(Seq<(Seq<char>, ValueView)>),
    Variant(Seq<char>, Option<Box<ValueView>>),
}

/// What a decode is asked to produce.
#[derive(Debug, PartialEq, Eq)]
pub enum Shape {
    /// Whatever the input holds: an integer, a byte string, a list of such
    /// values, or a dict of them.
    Any,
    Int,
    UInt,
    Bytes,
    Text,
    Optional(Box<Shape>),
    /// A list of any length, each element of the one shape.
    List(Box<Shape>),
    /// A list of fixed arity, one shape for each position.
    Tuple(Vec<Shape>),
    Dict(Box<Shape>, Box<Shape>),
    /// Named fields, in the order in which they stand on the wire. A
    /// canonical dictionary holds its keys sorted as bytes: the fields are
    /// to be declared in that order, and `is_sorted` tells whether they are.
    Record(Vec<(String, Shape)>),
    /// The variants by tag, each with the shape of its payload if it has one.
    Enum(Vec<(String, Option<Shape>)>),
}

/// The mathematical model of a [`Shape`].
pub enum ShapeView {
    Any,
    Int,
    UInt,
    Bytes,
    Text,
    Optional(Box<ShapeView>),
    List(Box<ShapeView>),
    Tuple(Seq<ShapeView>),
    Dict(Box<ShapeView>, Box<ShapeView>),
    Record(Seq<(Seq<char>, ShapeView)>),
    Enum(Seq<(Seq<char>, Option<ShapeView>)>),
}

pub open spec fn value_view(v: Value) -> ValueView
    decreases v,
{
    match v {
        Value::Int(i) => ValueView::Int(i),
        Value::UInt(u) => ValueView::UInt(u),
        Value::Bytes(b) => ValueView::Bytes(b@),
        Value::Text(s) => ValueView::Text(s@),
        Value::Absent => ValueView::Absent,
        Value::Present(inner) => ValueView::Present(Box::new(value_view(*inner))),
        Value::List(items) => ValueView::List(
            Seq::new(
                items@.len(),
                |i: int|
                    if 0 <= i < items@.len() {
                        value_view(items@[i])
                    } else {
                        ValueView::Absent
                    },
            ),
        ),
        Value::Dict(entries) => ValueView::Dict(
            Seq::new(
                entries@.len(),
                |i: int|
                    if 0 <= i < entries@.len() {
                        (value_view(entries@[i].0), value_view(entries@[i].1))
                    } else {
                        (ValueView::Absent, ValueView::Absent)
                    },
            ),
        ),
        Value::Record(fields) => ValueView::Record(
            Seq::new(
                fields@.len(),
                |i: int|
                    if 0 <= i < fields@.len() {
                        (fields@[i].0@, value_view(fields@[i].1))
                    } else {
                        (Seq::empty(), ValueView::Absent)
                    },
            ),
        ),
        Value::Variant(tag, payload) => ValueView::Variant(
            tag@,
            match payload {
                Some(p) => Some(Box::new(value_view(*p))),
                None => None,
            },
        ),
    }
}

impl View for Value {
    type V = ValueView;

    open spec fn view(&self) -> ValueView {
        value_view(*self)
    }
}

pub open spec fn shape_view(s: Shape) -> ShapeView
    decreases s,
{
    match s {
        Shape::Any => ShapeView::Any,
        Shape::Int => ShapeView::Int,
        Shape::UInt => ShapeView::UInt,
        Shape::Bytes => ShapeView::Bytes,
        Shape::Text => ShapeView::Text,
        Shape::Optional(inner) => ShapeView::Optional(Box::new(shape_view(*inner))),
        Shape::List(element) => ShapeView::List(Box::new(shape_view(*element))),
        Shape::Tuple(shapes) => ShapeView::Tuple(
            Seq::new(
                shapes@.len(),
                |i: int|
                    if 0 <= i < shapes@.len() {
                        shape_view(shapes@[i])
                    } else {
                        ShapeView::Any
                    },
            ),
        ),
        Shape::Dict(key, value) => ShapeView::Dict(
            Box::new(shape_view(*key)),
            Box::new(shape_view(*value)),
        ),
        Shape::Record(fields) => ShapeView::Record(
            Seq::new(
                fields@.len(),
                |i: int|
                    if 0 <= i < fields@.len() {
                        (fields@[i].0@, shape_view(fields@[i].1))
                    } else {
                        (Seq::empty(), ShapeView::Any)
                    },
            ),
        ),
        Shape::Enum(variants) => ShapeView::Enum(
            Seq::new(
                variants@.len(),
                |i: int|
                    if 0 <= i < variants@.len() {
                        (
                            variants@[i].0@,
                            match variants@[i].1 {
                                Some(p) => Some(shape_view(p)),
                                None => None,
                            },
                        )
                    } else {
                        (Seq::empty(), None)
                    },
            ),
        ),
    }
}

impl View for Shape {
    type V = ShapeView;

    open spec fn view(&self) -> ShapeView {
        shape_view(*self)
    }
}

/// How many levels deep the codec follows a value: a list, a dict, a
/// record, a payload and a present optional value are one level each.
pub const MAX_DEPTH: usize = 128;

/// The value nests no deeper than `depth` levels: what stands inside a
/// list, a dict, a record, a variant or an optional value stands one level
/// down, and nothing stands below level 0 but what holds nothing.
pub open spec fn within(v: ValueView, depth: nat) -> bool
    decreases v,
{
    match v {
        ValueView::Present(inner) => depth > 0 && within(*inner, (depth - 1) as nat),
        ValueView::List(items) => depth > 0 && forall|i: int|
            0 <= i < items.len() ==> within(#[trigger] items[i], (depth - 1) as nat),
        ValueView::Dict(entries) => depth > 0 && forall|i: int|
            0 <= i < entries.len() ==> within((#[trigger] entries[i]).0, (depth - 1) as nat)
                && within(entries[i].1, (depth - 1) as nat),
        ValueView::Record(fields) => depth > 0 && forall|i: int|
            0 <= i < fields.len() ==> within((#[trigger] fields[i]).1, (depth - 1) as nat),
        ValueView::Variant(_, Some(payload)) => depth > 0 && within(
            *payload,
            (depth - 1) as nat,
        ),
        _ => true,
    }
}

impl Value {
    /// Whether the value nests no deeper than `depth` levels. The check
    /// itself goes no deeper than that.
    pub fn is_within(&self, depth: usize) -> (r: bool)
        ensures
            r == within(self@, depth as nat),
        decreases self,
    {
        match self {
            Value::Present(inner) => depth > 0 && inner.is_within(depth - 1),
            Value::List(items) => {
                if depth == 0 {
                    return false;
                }
                let ghost views = self@->List_0;
                let mut i: usize = 0;
                while i < items.len()
                    invariant
                        i <= items.len(),
                        depth > 0,
                        self@ == ValueView::List(views),
                        views.len() == items.len(),
                        forall|k: int| 0 <= k < items.len() ==> views[k] == items@[k]@,
                        forall|k: int| 0 <= k < items.len() ==> decreases_to!(self => items@[k]),
                        forall|k: int|
                            0 <= k < i ==> within(#[trigger] views[k], (depth - 1) as nat),
                    decreases items.len() - i,
                {
                    if !items[i].is_within(depth - 1) {
                        assert(!within(views[i as int], (depth - 1) as nat));
                        assert(within(self@, depth as nat) ==> within(
                            self@->List_0[i as int],
                            (depth - 1) as nat,
                        ));
                        return false;
                    }
                    i = i + 1;
                }
                true
            },
            Value::Dict(entries) => {
                if depth == 0 {
                    return false;
                }
                let ghost views = self@->Dict_0;
                let mut i: usize = 0;
                while i < entries.len()
                    invariant
                        i <= entries.len(),
                        depth > 0,
                        self@ == ValueView::Dict(views),
                        views.len() == entries.len(),
                        forall|k: int|
                            0 <= k < entries.len() ==> views[k] == (
                                entries@[k].0@,
                                entries@[k].1@,
                            ),
                        forall|k: int|
                            0 <= k < entries.len() ==> decreases_to!(self => entries@[k]),
                        forall|k: int|
                            0 <= k < i ==> within((#[trigger] views[k]).0, (depth - 1) as nat)
                                && within(views[k].1, (depth - 1) as nat),
                    decreases entries.len() - i,
                {
                    if !entries[i].0.is_within(depth - 1) || !entries[i].1.is_within(depth - 1) {
                        assert(!(within(views[i as int].0, (depth - 1) as nat) && within(
                            views[i as int].1,
                            (depth - 1) as nat,
                        )));
                        assert(within(self@, depth as nat) ==> within(
                            self@->Dict_0[i as int].0,
                            (depth - 1) as nat,
                        ) && within(self@->Dict_0[i as int].1, (depth - 1) as nat));
                        return false;
                    }
                    i = i + 1;
                }
                true
            },
            Value::Record(fields) => {
                if depth == 0 {
                    return false;
                }
                let ghost views = self@->Record_0;
                let mut i: usize = 0;
                while i < fields.len()
                    invariant
                        i <= fields.len(),
                        depth > 0,
                        self@ == ValueView::Record(views),
                        views.len() == fields.len(),
                        forall|k: int|
                            0 <= k < fields.len() ==> views[k] == (fields@[k].0@, fields@[k].1@),
                        forall|k: int|
                            0 <= k < fields.len() ==> decreases_to!(self => fields@[k]),
                        forall|k: int|
                            0 <= k < i ==> within((#[trigger] views[k]).1, (depth - 1) as nat),
                    decreases fields.len() - i,
                {
                    if !fields[i].1.is_within(depth - 1) {
                        assert(!within(views[i as int].1, (depth - 1) as nat));
                        assert(within(self@, depth as nat) ==> within(
                            self@->Record_0[i as int].1,
                            (depth - 1) as nat,
                        ));
                        return false;
                    }
                    i = i + 1;
                }
                true
            },
            Value::Variant(_, payload) => match payload {
                Some(p) => depth > 0 && p.is_within(depth - 1),
                None => true,
            },
            _ => true,
        }
    }
}

/// The encoding of a value.
///
/// Integers are `i<decimal>e`; byte strings and text `<length>:<bytes>`; a
/// list is `l`, its items, `e`; a dict is `d`, each key followed by its
/// value, `e`. A record is a dict of its fields in their order. An entry or
/// a field whose value is absent is left out, key and all. A unit variant is
/// its tag; another variant is a dict of one entry, from the tag to the
/// payload.
pub open spec fn encode(v: ValueView) -> Seq<u8>
    decreases v, 0nat,
{
    match v {
        ValueView::Int(i) => integer_bytes(i as int),
        ValueView::UInt(u) => integer_bytes(u as int),
        ValueView::Bytes(b) => byte_string_bytes(b),
        ValueView::Text(s) => byte_string_bytes(encode_utf8(s)),
        ValueView::Absent => Seq::empty(),
        ValueView::Present(inner) => encode(*inner),
        ValueView::List(items) => seq![TOKEN_LIST] + encode_items(items) + seq![TOKEN_END],
        ValueView::Dict(entries) => seq![TOKEN_DICT] + encode_entries(entries) + seq![TOKEN_END],
        ValueView::Record(fields) => seq![TOKEN_DICT] + encode_fields(fields) + seq![TOKEN_END],
        ValueView::Variant(tag, None) => byte_string_bytes(encode_utf8(tag)),
        ValueView::Variant(tag, Some(payload)) => seq![TOKEN_DICT] + byte_string_bytes(
            encode_utf8(tag),
        ) + encode(*payload) + seq![TOKEN_END],
    }
}

/// The encodings of the items, one after the other.
pub open spec fn encode_items(items: Seq<ValueView>) -> Seq<u8>
    decreases items, 0nat,
{
    if items.len() == 0 {
        Seq::empty()
    } else {
        encode(items[0]) + encode_items(items.skip(1))
    }
}

/// One entry of a dict on the wire: the key's encoding followed by the
/// value's; nothing at all for a value that is absent.
pub open spec fn encode_entry(entry: (ValueView, ValueView)) -> Seq<u8>
    decreases entry, 1nat,
{
    if entry.1 is Absent {
        Seq::empty()
    } else {
        encode(entry.0) + encode(entry.1)
    }
}

/// The entries of a dict on the wire, in their order.
pub open spec fn encode_entries(entries: Seq<(ValueView, ValueView)>) -> Seq<u8>
    decreases entries, 0nat,
{
    if entries.len() == 0 {
        Seq::empty()
    } else {
        encode_entry(entries[0]) + encode_entries(entries.skip(1))
    }
}

/// One field of a record on the wire: its name as a byte string, then its
/// value; nothing at all for a value that is absent.
pub open spec fn encode_field(name: Seq<char>, value: ValueView) -> Seq<u8>
    decreases value, 1nat,
{
    if value is Absent {
        Seq::empty()
    } else {
        byte_string_bytes(encode_utf8(name)) + encode(value)
    }
}

/// The fields of a record on the wire, in their order.
pub open spec fn encode_fields(fields: Seq<(Seq<char>, ValueView)>) -> Seq<u8>
    decreases fields, 0nat,
{
    if fields.len() == 0 {
        Seq::empty()
    } else {
        encode_field(fields[0].0, fields[0].1) + encode_fields(fields.skip(1))
    }
}

} // verus!
