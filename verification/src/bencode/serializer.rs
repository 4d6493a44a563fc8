//! The encoder: walks a value and emits its tokens through a writer.

use crate::bencode::error::{Error, ErrorView, Result};
use crate::bencode::tokens::{TOKEN_DICT, TOKEN_END, TOKEN_LIST};
use crate::bencode::error::fails_with;
use crate::bencode::value::{
    encode, encode_entries, encode_entry, encode_field, encode_fields, encode_items, within,
    Value, ValueView, MAX_DEPTH,
};
use vstd::string::StringExecFns;
use crate::bencode::writer::{appended, byte_string_bytes, integer_bytes, BencodeWriter};
use crate::text::push_char;
use vstd::prelude::*;
use vstd::utf8::encode_utf8;

verus! {

/// Appending one more item appends its encoding.
pub proof fn lemma_encode_items_push(items: Seq<ValueView>, last: ValueView)
    ensures
        encode_items(items.push(last)) == encode_items(items) + encode(last),
    decreases items.len(),
{
    if items.len() == 0 {
        assert(items.push(last).skip(1) =~= Seq::<ValueView>::empty());
        assert(encode_items(items.push(last).skip(1)) =~= Seq::<u8>::empty());
        assert(encode_items(items.push(last)) =~= encode(last) + Seq::<u8>::empty());
        assert(encode_items(items) + encode(last) =~= encode(last));
    } else {
        lemma_encode_items_push(items.skip(1), last);
        assert(items.push(last).skip(1) =~= items.skip(1).push(last));
        assert(encode_items(items.push(last)) =~= encode_items(items) + encode(last));
    }
}

/// Appending one more entry appends what the entry is written as.
pub proof fn lemma_encode_entries_push(
    entries: Seq<(ValueView, ValueView)>,
    last: (ValueView, ValueView),
)
    ensures
        encode_entries(entries.push(last)) == encode_entries(entries) + encode_entry(last),
    decreases entries.len(),
{
    if entries.len() == 0 {
        assert(entries.push(last).skip(1) =~= Seq::<(ValueView, ValueView)>::empty());
        assert(encode_entries(entries.push(last).skip(1)) =~= Seq::<u8>::empty());
        assert(encode_entries(entries.push(last)) =~= encode_entry(last) + Seq::<u8>::empty());
        assert(encode_entries(entries) + encode_entry(last) =~= encode_entry(last));
    } else {
        lemma_encode_entries_push(entries.skip(1), last);
        assert(entries.push(last).skip(1) =~= entries.skip(1).push(last));
        assert(encode_entries(entries.push(last)) =~= encode_entries(entries) + encode_entry(
            last,
        ));
    }
}

/// Appending one more field appends what the field is written as.
pub proof fn lemma_encode_fields_push(
    fields: Seq<(Seq<char>, ValueView)>,
    last: (Seq<char>, ValueView),
)
    ensures
        encode_fields(fields.push(last)) == encode_fields(fields) + encode_field(last.0, last.1),
    decreases fields.len(),
{
    if fields.len() == 0 {
        assert(fields.push(last).skip(1) =~= Seq::<(Seq<char>, ValueView)>::empty());
        assert(encode_fields(fields.push(last).skip(1)) =~= Seq::<u8>::empty());
        assert(encode_fields(fields.push(last)) =~= encode_field(last.0, last.1) + Seq::<
            u8,
        >::empty());
        assert(encode_fields(fields) + encode_field(last.0, last.1) =~= encode_field(
            last.0,
            last.1,
        ));
    } else {
        lemma_encode_fields_push(fields.skip(1), last);
        assert(fields.push(last).skip(1) =~= fields.skip(1).push(last));
        assert(encode_fields(fields.push(last)) =~= encode_fields(fields) + encode_field(
            last.0,
            last.1,
        ));
    }
}

/// What is said of an absent value that is to follow a key.
pub open spec fn absent_value() -> ErrorView {
    ErrorView::Internal("a key without its value"@)
}

/// An encoder over a writer that it holds for the length of one encode.
pub struct Serializer<'ser, W: BencodeWriter> {
    pub writer: &'ser mut W,
}

pub fn from_writer<W: BencodeWriter>(writer: &'_ mut W) -> (s: Serializer<'_, W>)
    ensures
        *s.writer == *old(writer),
        *final(s.writer) == *final(writer),
{
    Serializer::from_writer(writer)
}

impl<'ser, W: BencodeWriter> Serializer<'ser, W> {
    pub fn from_writer(writer: &'ser mut W) -> (s: Self)
        ensures
            *s.writer == *old(writer),
            *final(s.writer) == *final(writer),
    {
        Serializer { writer }
    }

    /// What an encode of `bytes` does: on success exactly `bytes` have gone
    /// to the writer; a reliable writer never fails; a failure is the
    /// writer's.
    pub open spec fn emitted(before: Self, after: Self, r: Result<()>, bytes: Seq<u8>) -> bool {
        appended(*before.writer, *after.writer, r, bytes)
    }

    /// What an encode does that first asks whether the value is shallow
    /// enough: if it is, `bytes` are emitted; if it is not, the call fails
    /// and nothing is written.
    pub open spec fn checked(
        before: Self,
        after: Self,
        r: Result<()>,
        shallow: bool,
        bytes: Seq<u8>,
    ) -> bool {
        if shallow {
            Self::emitted(before, after, r, bytes)
        } else {
            fails_with(r, ErrorView::NestingTooDeep) && *after.writer == *before.writer
        }
    }

    pub fn serialize_bool(&mut self, value: bool) -> (r: Result<()>)
        ensures
            *final(final(self).writer) == *final(old(self).writer),
            Self::emitted(
                *old(self),
                *final(self),
                r,
                integer_bytes(
                    if value {
                        1
                    } else {
                        0
                    },
                ),
            ),
    {
        self.serialize_i64(
            if value {
                1
            } else {
                0
            },
        )
    }

    pub fn serialize_i8(&mut self, value: i8) -> (r: Result<()>)
        ensures
            *final(final(self).writer) == *final(old(self).writer),
            Self::emitted(*old(self), *final(self), r, integer_bytes(value as int)),
    {
        self.serialize_i64(value as i64)
    }

    pub fn serialize_i16(&mut self, value: i16) -> (r: Result<()>)
        ensures
            *final(final(self).writer) == *final(old(self).writer),
            Self::emitted(*old(self), *final(self), r, integer_bytes(value as int)),
    {
        self.serialize_i64(value as i64)
    }

    pub fn serialize_i32(&mut self, value: i32) -> (r: Result<()>)
        ensures
            *final(final(self).writer) == *final(old(self).writer),
            Self::emitted(*old(self), *final(self), r, integer_bytes(value as int)),
    {
        self.serialize_i64(value as i64)
    }

    pub fn serialize_i64(&mut self, value: i64) -> (r: Result<()>)
        ensures
            *final(final(self).writer) == *final(old(self).writer),
            Self::emitted(*old(self), *final(self), r, integer_bytes(value as int)),
    {
        self.writer.write_signed_integer(value)
    }

    pub fn serialize_u8(&mut self, value: u8) -> (r: Result<()>)
        ensures
            *final(final(self).writer) == *final(old(self).writer),
            Self::emitted(*old(self), *final(self), r, integer_bytes(value as int)),
    {
        self.serialize_u64(value as u64)
    }

    pub fn serialize_u16(&mut self, value: u16) -> (r: Result<()>)
        ensures
            *final(final(self).writer) == *final(old(self).writer),
            Self::emitted(*old(self), *final(self), r, integer_bytes(value as int)),
    {
        self.serialize_u64(value as u64)
    }

    pub fn serialize_u32(&mut self, value: u32) -> (r: Result<()>)
        ensures
            *final(final(self).writer) == *final(old(self).writer),
            Self::emitted(*old(self), *final(self), r, integer_bytes(value as int)),
    {
        self.serialize_u64(value as u64)
    }

    pub fn serialize_u64(&mut self, value: u64) -> (r: Result<()>)
        ensures
            *final(final(self).writer) == *final(old(self).writer),
            Self::emitted(*old(self), *final(self), r, integer_bytes(value as int)),
    {
        self.writer.write_unsigned_integer(value)
    }

    /// A character is written as the byte string of its UTF-8 encoding.
    pub fn serialize_char(&mut self, value: char) -> (r: Result<()>)
        ensures
            *final(final(self).writer) == *final(old(self).writer),
            Self::emitted(
                *old(self),
                *final(self),
                r,
                byte_string_bytes(encode_utf8(seq![value])),
            ),
    {
        let mut text = String::new();
        push_char(&mut text, value);
        assert(text@ =~= seq![value]);
        self.serialize_str(text.as_str())
    }

    pub fn serialize_str(&mut self, value: &str) -> (r: Result<()>)
        ensures
            *final(final(self).writer) == *final(old(self).writer),
            Self::emitted(*old(self), *final(self), r, byte_string_bytes(encode_utf8(value@))),
    {
        self.serialize_bytes(value.as_bytes())
    }

    pub fn serialize_bytes(&mut self, value: &[u8]) -> (r: Result<()>)
        ensures
            *final(final(self).writer) == *final(old(self).writer),
            Self::emitted(*old(self), *final(self), r, byte_string_bytes(value@)),
    {
        self.writer.write_bytes(value)
    }

    /// The unit value has no encoding: nothing is written.
    pub fn serialize_unit(&mut self) -> (r: Result<()>)
        ensures
            *final(final(self).writer) == *final(old(self).writer),
            r is Ok,
            *final(self).writer == *old(self).writer,
    {
        Ok(())
    }

    pub fn serialize_unit_struct(&mut self, _name: &str) -> (r: Result<()>)
        ensures
            *final(final(self).writer) == *final(old(self).writer),
            r is Ok,
            *final(self).writer == *old(self).writer,
    {
        self.serialize_unit()
    }

    /// A unit variant is its tag, as a byte string.
    pub fn serialize_unit_variant(&mut self, variant: &str) -> (r: Result<()>)
        ensures
            *final(final(self).writer) == *final(old(self).writer),
            Self::emitted(
                *old(self),
                *final(self),
                r,
                encode(ValueView::Variant(variant@, None)),
            ),
    {
        self.serialize_str(variant)
    }

    /// A newtype struct is written as what it wraps.
    pub fn serialize_newtype_struct(&mut self, _name: &str, value: &Value) -> (r: Result<()>)
        ensures
            *final(final(self).writer) == *final(old(self).writer),
            Self::checked(
                *old(self),
                *final(self),
                r,
                within(value@, MAX_DEPTH as nat),
                encode(value@),
            ),
    {
        self.serialize(value)
    }

    /// A newtype variant is a dict of one entry, from the tag to the payload.
    pub fn serialize_newtype_variant(&mut self, variant: &str, value: &Value) -> (r: Result<()>)
        ensures
            *final(final(self).writer) == *final(old(self).writer),
            Self::checked(
                *old(self),
                *final(self),
                r,
                within(value@, (MAX_DEPTH - 1) as nat),
                encode(ValueView::Variant(variant@, Some(Box::new(value@)))),
            ),
    {
        if !value.is_within(MAX_DEPTH - 1) {
            return Err(Error::NestingTooDeep);
        }
        self.writer.write_dict_start()?;
        self.serialize_bytes(variant.as_bytes())?;
        self.emit(value, MAX_DEPTH - 1)?;
        self.writer.write_end()?;
        assert(self.writer.written() =~= old(self).writer.written() + encode(
            ValueView::Variant(variant@, Some(Box::new(value@))),
        ));
        Ok(())
    }

    /// An absent optional value has no encoding: nothing is written.
    pub fn serialize_none(&mut self) -> (r: Result<()>)
        ensures
            *final(final(self).writer) == *final(old(self).writer),
            r is Ok,
            *final(self).writer == *old(self).writer,
    {
        Ok(())
    }

    /// A present optional value is written as the value itself.
    pub fn serialize_some(&mut self, value: &Value) -> (r: Result<()>)
        ensures
            *final(final(self).writer) == *final(old(self).writer),
            Self::checked(
                *old(self),
                *final(self),
                r,
                within(value@, (MAX_DEPTH - 1) as nat),
                encode(value@),
            ),
    {
        self.serialize_nested(value)
    }

    /// Opens a list. The elements follow by `serialize_element`, then `end`.
    pub fn serialize_seq(&mut self, _len: Option<usize>) -> (r: Result<()>)
        ensures
            *final(final(self).writer) == *final(old(self).writer),
            Self::emitted(*old(self), *final(self), r, seq![TOKEN_LIST]),
    {
        self.writer.write_list_start()
    }

    /// Opens a list for a tuple of `size` elements.
    pub fn serialize_tuple(&mut self, size: usize) -> (r: Result<()>)
        ensures
            *final(final(self).writer) == *final(old(self).writer),
            Self::emitted(*old(self), *final(self), r, seq![TOKEN_LIST]),
    {
        self.serialize_seq(Some(size))
    }

    /// Opens a list for a tuple struct of `len` fields.
    pub fn serialize_tuple_struct(&mut self, _name: &str, len: usize) -> (r: Result<()>)
        ensures
            *final(final(self).writer) == *final(old(self).writer),
            Self::emitted(*old(self), *final(self), r, seq![TOKEN_LIST]),
    {
        self.serialize_seq(Some(len))
    }

    /// Opens a tuple variant: a dict, the tag as its one key, and a list for
    /// the fields. The fields follow by `serialize_element`, then
    /// `end_tuple_variant`.
    pub fn serialize_tuple_variant(&mut self, variant: &str, _len: usize) -> (r: Result<()>)
        ensures
            *final(final(self).writer) == *final(old(self).writer),
            Self::emitted(
                *old(self),
                *final(self),
                r,
                seq![TOKEN_DICT] + byte_string_bytes(encode_utf8(variant@)) + seq![TOKEN_LIST],
            ),
    {
        self.writer.write_dict_start()?;
        self.serialize_bytes(variant.as_bytes())?;
        self.writer.write_list_start()?;
        assert(self.writer.written() =~= old(self).writer.written() + (seq![TOKEN_DICT]
            + byte_string_bytes(encode_utf8(variant@)) + seq![TOKEN_LIST]));
        Ok(())
    }

    /// Closes the list and the dict of a tuple variant.
    pub fn end_tuple_variant(&mut self) -> (r: Result<()>)
        ensures
            *final(final(self).writer) == *final(old(self).writer),
            Self::emitted(*old(self), *final(self), r, seq![TOKEN_END, TOKEN_END]),
    {
        self.writer.write_end()?;
        self.writer.write_end()?;
        assert(self.writer.written() =~= old(self).writer.written() + seq![TOKEN_END, TOKEN_END]);
        Ok(())
    }

    /// Opens a dict. The entries follow by `serialize_entry`, then `end`.
    pub fn serialize_map(&mut self, _len: Option<usize>) -> (r: Result<()>)
        ensures
            *final(final(self).writer) == *final(old(self).writer),
            Self::emitted(*old(self), *final(self), r, seq![TOKEN_DICT]),
    {
        self.writer.write_dict_start()
    }

    /// Opens a dict for a record. The fields follow by `serialize_field`,
    /// then `end`.
    pub fn serialize_struct(&mut self, _name: &str, _len: usize) -> (r: Result<()>)
        ensures
            *final(final(self).writer) == *final(old(self).writer),
            Self::emitted(*old(self), *final(self), r, seq![TOKEN_DICT]),
    {
        self.serialize_map(None)
    }

    /// A variant with named fields has no encoding here: the call fails and
    /// nothing is written.
    pub fn serialize_struct_variant(&mut self, _variant: &str, _len: usize) -> (r: Result<()>)
        ensures
            *final(final(self).writer) == *final(old(self).writer),
            r matches Err(e) && e@ == ErrorView::UnsupportedType,
            *final(self).writer == *old(self).writer,
    {
        Err(Error::from_unsupported_type::<Value>())
    }

    /// A value that stands inside another: one level is taken already.
    fn serialize_nested(&mut self, value: &Value) -> (r: Result<()>)
        ensures
            *final(final(self).writer) == *final(old(self).writer),
            Self::checked(
                *old(self),
                *final(self),
                r,
                within(value@, (MAX_DEPTH - 1) as nat),
                encode(value@),
            ),
    {
        if !value.is_within(MAX_DEPTH - 1) {
            return Err(Error::NestingTooDeep);
        }
        self.emit(value, MAX_DEPTH - 1)
    }

    /// One element of an open list.
    pub fn serialize_element(&mut self, value: &Value) -> (r: Result<()>)
        ensures
            *final(final(self).writer) == *final(old(self).writer),
            Self::checked(
                *old(self),
                *final(self),
                r,
                within(value@, (MAX_DEPTH - 1) as nat),
                encode(value@),
            ),
    {
        self.serialize_nested(value)
    }

    /// The key of an entry of an open dict.
    pub fn serialize_key(&mut self, key: &Value) -> (r: Result<()>)
        ensures
            *final(final(self).writer) == *final(old(self).writer),
            Self::checked(
                *old(self),
                *final(self),
                r,
                within(key@, (MAX_DEPTH - 1) as nat),
                encode(key@),
            ),
    {
        self.serialize_nested(key)
    }

    /// The value of an entry of an open dict, whose key is written already.
    /// An absent value would leave the key without one: it is refused, and
    /// nothing is written.
    pub fn serialize_value(&mut self, value: &Value) -> (r: Result<()>)
        ensures
            *final(final(self).writer) == *final(old(self).writer),
            value@ is Absent ==> fails_with(r, absent_value()) && *final(self).writer == *old(
                self,
            ).writer,
            !(value@ is Absent) ==> Self::checked(
                *old(self),
                *final(self),
                r,
                within(value@, (MAX_DEPTH - 1) as nat),
                encode(value@),
            ),
    {
        match value {
            Value::Absent => Err(
                Error::from_internal(String::from_str("a key without its value")),
            ),
            _ => self.serialize_nested(value),
        }
    }

    /// One entry of an open dict: the key, then the value. An entry whose
    /// value is absent is left out, key and all.
    pub fn serialize_entry(&mut self, entry: &(Value, Value)) -> (r: Result<()>)
        ensures
            *final(final(self).writer) == *final(old(self).writer),
            Self::checked(
                *old(self),
                *final(self),
                r,
                within(entry.0@, (MAX_DEPTH - 1) as nat) && within(
                    entry.1@,
                    (MAX_DEPTH - 1) as nat,
                ),
                encode_entry((entry.0@, entry.1@)),
            ),
    {
        if !entry.0.is_within(MAX_DEPTH - 1) || !entry.1.is_within(MAX_DEPTH - 1) {
            return Err(Error::NestingTooDeep);
        }
        self.emit_entry(entry, MAX_DEPTH - 1)
    }

    /// One field of an open record: its name as the key, then its value. A
    /// field whose value is absent is left out, key and all.
    pub fn serialize_field(&mut self, key: &str, value: &Value) -> (r: Result<()>)
        ensures
            *final(final(self).writer) == *final(old(self).writer),
            Self::checked(
                *old(self),
                *final(self),
                r,
                within(value@, (MAX_DEPTH - 1) as nat),
                encode_field(key@, value@),
            ),
    {
        if !value.is_within(MAX_DEPTH - 1) {
            return Err(Error::NestingTooDeep);
        }
        self.emit_field(key, value, MAX_DEPTH - 1)
    }

    /// An entry whose key and value nest no deeper than `depth`.
    fn emit_entry(&mut self, entry: &(Value, Value), depth: usize) -> (r: Result<()>)
        requires
            within(entry.0@, depth as nat),
            within(entry.1@, depth as nat),
        ensures
            *final(final(self).writer) == *final(old(self).writer),
            Self::emitted(*old(self), *final(self), r, encode_entry((entry.0@, entry.1@))),
        decreases depth, 1nat,
    {
        match &entry.1 {
            Value::Absent => {
                assert(self.writer.written() =~= old(self).writer.written() + encode_entry(
                    (entry.0@, entry.1@),
                ));
                Ok(())
            },
            _ => {
                self.emit(&entry.0, depth)?;
                self.emit(&entry.1, depth)?;
                assert(self.writer.written() =~= old(self).writer.written() + encode_entry(
                    (entry.0@, entry.1@),
                ));
                Ok(())
            },
        }
    }

    /// A field whose value nests no deeper than `depth`.
    fn emit_field(&mut self, key: &str, value: &Value, depth: usize) -> (r: Result<()>)
        requires
            within(value@, depth as nat),
        ensures
            *final(final(self).writer) == *final(old(self).writer),
            Self::emitted(*old(self), *final(self), r, encode_field(key@, value@)),
        decreases depth, 1nat,
    {
        match value {
            Value::Absent => {
                assert(self.writer.written() =~= old(self).writer.written() + encode_field(
                    key@,
                    value@,
                ));
                Ok(())
            },
            _ => {
                self.serialize_str(key)?;
                self.emit(value, depth)?;
                assert(self.writer.written() =~= old(self).writer.written() + encode_field(
                    key@,
                    value@,
                ));
                Ok(())
            },
        }
    }

    /// Closes an open list, dict or record.
    pub fn end(&mut self) -> (r: Result<()>)
        ensures
            *final(final(self).writer) == *final(old(self).writer),
            Self::emitted(*old(self), *final(self), r, seq![TOKEN_END]),
    {
        self.writer.write_end()
    }

    /// Encodes one value. A value that nests deeper than [`MAX_DEPTH`] is
    /// refused before anything is written.
    pub fn serialize(&mut self, value: &Value) -> (r: Result<()>)
        ensures
            *final(final(self).writer) == *final(old(self).writer),
            Self::checked(
                *old(self),
                *final(self),
                r,
                within(value@, MAX_DEPTH as nat),
                encode(value@),
            ),
    {
        if !value.is_within(MAX_DEPTH) {
            return Err(Error::NestingTooDeep);
        }
        self.emit(value, MAX_DEPTH)
    }

    /// Encodes a value that nests no deeper than `depth`, and goes no deeper
    /// than that itself.
    fn emit(&mut self, value: &Value, depth: usize) -> (r: Result<()>)
        requires
            within(value@, depth as nat),
        ensures
            *final(final(self).writer) == *final(old(self).writer),
            Self::emitted(*old(self), *final(self), r, encode(value@)),
        decreases depth, 0nat,
    {
        match value {
            Value::Int(i) => self.serialize_i64(*i),
            Value::UInt(u) => self.serialize_u64(*u),
            Value::Bytes(b) => self.serialize_bytes(b.as_slice()),
            Value::Text(s) => self.serialize_str(s.as_str()),
            Value::Absent => {
                self.serialize_none()?;
                assert(self.writer.written() =~= old(self).writer.written() + encode(value@));
                Ok(())
            },
            Value::Present(inner) => self.emit(inner, depth - 1),
            Value::List(items) => {
                let ghost views = value@->List_0;
                self.serialize_seq(Some(items.len()))?;
                let mut i: usize = 0;
                while i < items.len()
                    invariant
                        i <= items.len(),
                        views.len() == items.len(),
                        forall|k: int| 0 <= k < items.len() ==> views[k] == items@[k]@,
                        depth > 0,
                        forall|k: int|
                            0 <= k < items.len() ==> within(
                                #[trigger] views[k],
                                (depth - 1) as nat,
                            ),
                        self.writer.reliable() == old(self).writer.reliable(),
                        *final(self.writer) == *final(old(self).writer),
                        self.writer.written() == old(self).writer.written() + seq![TOKEN_LIST]
                            + encode_items(views.take(i as int)),
                    decreases items.len() - i,
                {
                    self.emit(&items[i], depth - 1)?;
                    proof {
                        lemma_encode_items_push(views.take(i as int), views[i as int]);
                        assert(views.take(i as int).push(views[i as int]) =~= views.take(i + 1));
                    }
                    i = i + 1;
                }
                assert(views.take(i as int) =~= views);
                self.end()?;
                assert(self.writer.written() =~= old(self).writer.written() + encode(value@));
                Ok(())
            },
            Value::Dict(entries) => {
                let ghost views = value@->Dict_0;
                self.serialize_map(Some(entries.len()))?;
                let mut i: usize = 0;
                while i < entries.len()
                    invariant
                        i <= entries.len(),
                        views.len() == entries.len(),
                        forall|k: int|
                            0 <= k < entries.len() ==> views[k] == (
                                entries@[k].0@,
                                entries@[k].1@,
                            ),
                        depth > 0,
                        forall|k: int|
                            0 <= k < entries.len() ==> within(
                                (#[trigger] views[k]).0,
                                (depth - 1) as nat,
                            ) && within(views[k].1, (depth - 1) as nat),
                        self.writer.reliable() == old(self).writer.reliable(),
                        *final(self.writer) == *final(old(self).writer),
                        self.writer.written() == old(self).writer.written() + seq![TOKEN_DICT]
                            + encode_entries(views.take(i as int)),
                    decreases entries.len() - i,
                {
                    assert(views[i as int] == (entries@[i as int].0@, entries@[i as int].1@));
                    self.emit_entry(&entries[i], depth - 1)?;
                    proof {
                        lemma_encode_entries_push(views.take(i as int), views[i as int]);
                        assert(views.take(i as int).push(views[i as int]) =~= views.take(i + 1));
                    }
                    i = i + 1;
                }
                assert(views.take(i as int) =~= views);
                self.end()?;
                assert(self.writer.written() =~= old(self).writer.written() + encode(value@));
                Ok(())
            },
            Value::Record(fields) => {
                let ghost views = value@->Record_0;
                self.serialize_struct("", fields.len())?;
                let mut i: usize = 0;
                while i < fields.len()
                    invariant
                        i <= fields.len(),
                        views.len() == fields.len(),
                        forall|k: int|
                            0 <= k < fields.len() ==> views[k] == (fields@[k].0@, fields@[k].1@),
                        depth > 0,
                        forall|k: int|
                            0 <= k < fields.len() ==> within(
                                (#[trigger] views[k]).1,
                                (depth - 1) as nat,
                            ),
                        self.writer.reliable() == old(self).writer.reliable(),
                        *final(self.writer) == *final(old(self).writer),
                        self.writer.written() == old(self).writer.written() + seq![TOKEN_DICT]
                            + encode_fields(views.take(i as int)),
                    decreases fields.len() - i,
                {
                    assert(views[i as int] == (fields@[i as int].0@, fields@[i as int].1@));
                    self.emit_field(fields[i].0.as_str(), &fields[i].1, depth - 1)?;
                    proof {
                        lemma_encode_fields_push(views.take(i as int), views[i as int]);
                        assert(views.take(i as int).push(views[i as int]) =~= views.take(i + 1));
                    }
                    i = i + 1;
                }
                assert(views.take(i as int) =~= views);
                self.end()?;
                assert(self.writer.written() =~= old(self).writer.written() + encode(value@));
                Ok(())
            },
            Value::Variant(tag, payload) => match payload {
                None => self.serialize_unit_variant(tag.as_str()),
                Some(p) => {
                    self.writer.write_dict_start()?;
                    self.serialize_bytes(tag.as_str().as_bytes())?;
                    self.emit(p, depth - 1)?;
                    self.writer.write_end()?;
                    assert(self.writer.written() =~= old(self).writer.written() + encode(
                        value@,
                    ));
                    Ok(())
                },
            },
        }
    }
}

} // verus!
