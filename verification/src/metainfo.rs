//! The metadata of a torrent, and its form as a value of the codec.

pub mod laws;
pub mod pieces_bytes;

use crate::bencode::error::{Error, ErrorView};
use crate::bencode::value::{shape_view, value_view, Shape, ShapeView, Value, ValueView};
use crate::metainfo::pieces_bytes::{joined, pieces_view, split};
use vstd::prelude::*;

use vstd::string::StringExecFns;

verus! {

/// One file of a torrent that holds several.
#[derive(Debug, PartialEq)]
pub struct File {
    /// The length of the file in bytes.
    pub length: usize,
    /// The path of the file, one text for each directory and the name last.
    pub path: Vec<String>,
}

/// What a torrent holds: one file, or several.
#[derive(Debug, PartialEq)]
pub enum FileInfo {
    SingleFile { length: usize },
    MultiFile { files: Vec<File> },
}

/// The description of the content of a torrent. On the wire the fields of
/// `file_info` stand among the others: `length` for one file, `files` for
/// several.
#[derive(Debug, PartialEq)]
pub struct Info {
    pub file_info: FileInfo,
    /// The name of the file, or of the directory of the files.
    pub name: String,
    /// The number of bytes in each piece.
    pub piece_length: usize,
    /// The hash of each piece.
    pub pieces: Vec<[u8; 20]>,
}

/// The metadata of a torrent. The fields stand in the order of their keys
/// on the wire, which is the order of the keys as bytes.
#[derive(Debug, PartialEq)]
pub struct MetaInfo {
    /// The announce URL of the tracker.
    pub announce: String,
    /// Tiers of tracker URLs; an extension of the format.
    pub announce_list: Option<Vec<Vec<String>>>,
    /// A comment of the author.
    pub comment: Option<String>,
    /// Name and version of the program that made the torrent.
    pub created_by: Option<String>,
    /// When the torrent was made, in seconds since the epoch of Unix.
    pub creation_date: Option<u64>,
    /// The encoding of the texts in `info`.
    pub encoding: Option<String>,
    pub info: Info,
}

/// What is said of a value that is no metadata.
pub open spec fn invalid_metadata() -> ErrorView {
    ErrorView::Internal("invalid torrent metadata"@)
}

/// An optional value: present with what it holds, or absent.
pub open spec fn optional(v: Option<ValueView>) -> ValueView {
    match v {
        Some(x) => ValueView::Present(Box::new(x)),
        None => ValueView::Absent,
    }
}

/// An optional text as a value.
pub open spec fn optional_text(o: Option<String>) -> ValueView {
    match o {
        Some(s) => ValueView::Present(Box::new(ValueView::Text(s@))),
        None => ValueView::Absent,
    }
}

/// The texts as values, in their order.
pub open spec fn texts(s: Seq<String>) -> Seq<ValueView> {
    Seq::new(s.len(), |i: int| ValueView::Text(s[i]@))
}

/// The tiers as values: each a list of texts.
pub open spec fn tiers(s: Seq<Vec<String>>) -> Seq<ValueView> {
    Seq::new(s.len(), |i: int| ValueView::List(texts(s[i]@)))
}

/// A file as a value: the record of its length and its path.
pub open spec fn file_value(f: File) -> ValueView {
    ValueView::Record(
        seq![
            ("length"@, ValueView::UInt(f.length as u64)),
            ("path"@, ValueView::List(texts(f.path@))),
        ],
    )
}

/// The files as values, in their order.
pub open spec fn file_values(s: Seq<File>) -> Seq<ValueView> {
    Seq::new(s.len(), |i: int| file_value(s[i]))
}

/// The value under `files`: the files of a torrent of several, absent for a
/// torrent of one.
pub open spec fn files_field(f: FileInfo) -> ValueView {
    match f {
        FileInfo::SingleFile { length } => ValueView::Absent,
        FileInfo::MultiFile { files } => ValueView::Present(
            Box::new(ValueView::List(file_values(files@))),
        ),
    }
}

/// The value under `length`: the length of the file of a torrent of one,
/// absent for a torrent of several.
pub open spec fn length_field(f: FileInfo) -> ValueView {
    match f {
        FileInfo::SingleFile { length } => ValueView::Present(
            Box::new(ValueView::UInt(length as u64)),
        ),
        FileInfo::MultiFile { files } => ValueView::Absent,
    }
}

/// The description of the content as a value: a record of five fields.
pub open spec fn info_value(i: Info) -> ValueView {
    ValueView::Record(
        seq![
            ("files"@, files_field(i.file_info)),
            ("length"@, length_field(i.file_info)),
            ("name"@, ValueView::Text(i.name@)),
            ("piece length"@, ValueView::UInt(i.piece_length as u64)),
            ("pieces"@, ValueView::Bytes(joined(pieces_view(i.pieces@)))),
        ],
    )
}

/// The metadata as a value: a record of seven fields.
pub open spec fn meta_info_value(m: MetaInfo) -> ValueView {
    ValueView::Record(
        seq![
            ("announce"@, ValueView::Text(m.announce@)),
            (
                "announce-list"@,
                match m.announce_list {
                    Some(l) => ValueView::Present(Box::new(ValueView::List(tiers(l@)))),
                    None => ValueView::Absent,
                },
            ),
            ("comment"@, optional_text(m.comment)),
            ("created by"@, optional_text(m.created_by)),
            (
                "creation date"@,
                match m.creation_date {
                    Some(d) => ValueView::Present(Box::new(ValueView::UInt(d))),
                    None => ValueView::Absent,
                },
            ),
            ("encoding"@, optional_text(m.encoding)),
            ("info"@, info_value(m.info)),
        ],
    )
}

/// A list whose items are all texts.
pub open spec fn is_text_list(v: ValueView) -> bool {
    v matches ValueView::List(items) && forall|i: int|
        0 <= i < items.len() ==> #[trigger] items[i] is Text
}

/// A list whose items are all lists of texts.
pub open spec fn is_tier_list(v: ValueView) -> bool {
    v matches ValueView::List(items) && forall|i: int|
        0 <= i < items.len() ==> is_text_list(#[trigger] items[i])
}

/// An unsigned integer that a length can hold.
pub open spec fn is_size(v: ValueView) -> bool {
    v matches ValueView::UInt(u) && u <= usize::MAX
}

/// The record of a file.
pub open spec fn is_file(v: ValueView) -> bool {
    v matches ValueView::Record(fs) && fs.len() == 2 && fs[0].0 == "length"@ && is_size(fs[0].1)
        && fs[1].0 == "path"@ && is_text_list(fs[1].1)
}

/// A list whose items are all records of files.
pub open spec fn is_file_list(v: ValueView) -> bool {
    v matches ValueView::List(items) && forall|i: int|
        0 <= i < items.len() ==> is_file(#[trigger] items[i])
}

/// Absent, or a present text.
pub open spec fn is_optional_text(v: ValueView) -> bool {
    v is Absent || (v matches ValueView::Present(p) && *p is Text)
}

/// The record of a description: its five fields under their names, each of
/// its kind, and a length or, where there is none, a list of files.
pub open spec fn is_info(v: ValueView) -> bool {
    v matches ValueView::Record(fs) && fs.len() == 5 && {
        &&& fs[0].0 == "files"@
        &&& fs[1].0 == "length"@
        &&& fs[2].0 == "name"@
        &&& fs[3].0 == "piece length"@
        &&& fs[4].0 == "pieces"@
        &&& fs[1].1 is Absent || (fs[1].1 matches ValueView::Present(p) && is_size(*p))
        &&& fs[1].1 is Absent ==> (fs[0].1 matches ValueView::Present(p) && is_file_list(*p))
        &&& fs[2].1 is Text
        &&& is_size(fs[3].1)
        &&& fs[4].1 is Bytes
    }
}

/// The record of a description as a description gives it. A record with a
/// length is one of a single file, whatever stands under `files`; the
/// record of a single file has nothing there. Pieces are whole hashes:
/// bytes that are left over are dropped.
pub open spec fn canonical_info(v: ValueView) -> ValueView {
    let fs = v->Record_0;
    ValueView::Record(
        seq![
            (
                fs[0].0,
                if fs[1].1 is Absent {
                    fs[0].1
                } else {
                    ValueView::Absent
                },
            ),
            fs[1],
            fs[2],
            fs[3],
            (fs[4].0, ValueView::Bytes(joined(split(fs[4].1->Bytes_0)))),
        ],
    )
}

/// The record of a torrent's metadata: its seven fields under their names,
/// each of its kind.
pub open spec fn is_meta_info(v: ValueView) -> bool {
    v matches ValueView::Record(fs) && fs.len() == 7 && {
        &&& fs[0].0 == "announce"@
        &&& fs[1].0 == "announce-list"@
        &&& fs[2].0 == "comment"@
        &&& fs[3].0 == "created by"@
        &&& fs[4].0 == "creation date"@
        &&& fs[5].0 == "encoding"@
        &&& fs[6].0 == "info"@
        &&& fs[0].1 is Text
        &&& fs[1].1 is Absent || (fs[1].1 matches ValueView::Present(p) && is_tier_list(*p))
        &&& is_optional_text(fs[2].1)
        &&& is_optional_text(fs[3].1)
        &&& fs[4].1 is Absent || (fs[4].1 matches ValueView::Present(p) && *p is UInt)
        &&& is_optional_text(fs[5].1)
        &&& is_info(fs[6].1)
    }
}

/// The record of the metadata as a metadata gives it: as it stands, with
/// the description in its canonical form.
pub open spec fn canonical_meta_info(v: ValueView) -> ValueView {
    let fs = v->Record_0;
    ValueView::Record(
        seq![fs[0], fs[1], fs[2], fs[3], fs[4], fs[5], (fs[6].0, canonical_info(fs[6].1))],
    )
}

fn invalid<T>() -> (r: Result<T, Error>)
    ensures
        r matches Err(e) && e@ == invalid_metadata(),
{
    Err(Error::from_internal(String::from_str("invalid torrent metadata")))
}

/// A list of texts as a value.
fn text_list(items: &Vec<String>) -> (v: Value)
    ensures
        v@ == ValueView::List(texts(items@)),
{
    let mut out: Vec<Value> = Vec::new();
    let mut i: usize = 0;
    while i < items.len()
        invariant
            i <= items.len(),
            out@.len() == i,
            forall|k: int| 0 <= k < i ==> (#[trigger] out@[k])@ == ValueView::Text(items@[k]@),
        decreases items.len() - i,
    {
        out.push(Value::Text(items[i].clone()));
        i = i + 1;
    }
    let v = Value::List(out);
    assert(v@->List_0 =~= texts(items@));
    v
}

/// The texts that a list of texts holds.
fn as_text_list(v: &Value) -> (r: Option<Vec<String>>)
    ensures
        r is Some <==> is_text_list(v@),
        r matches Some(l) ==> v@ == ValueView::List(texts(l@)),
{
    match v {
        Value::List(items) => {
            let ghost views = v@->List_0;
            let mut out: Vec<String> = Vec::new();
            let mut i: usize = 0;
            while i < items.len()
                invariant
                    i <= items.len(),
                    v@ == ValueView::List(views),
                    views.len() == items.len(),
                    forall|k: int| 0 <= k < items.len() ==> views[k] == items@[k]@,
                    out@.len() == i,
                    forall|k: int|
                        0 <= k < i ==> views[k] == ValueView::Text((#[trigger] out@[k])@),
                decreases items.len() - i,
            {
                match &items[i] {
                    Value::Text(s) => {
                        out.push(s.clone());
                    },
                    _ => {
                        assert(!(views[i as int] is Text));
                        return None;
                    },
                }
                i = i + 1;
            }
            assert(views =~= texts(out@));
            Some(out)
        },
        _ => None,
    }
}

/// A length as a value.
fn size_value(n: usize) -> (v: Value)
    ensures
        v@ == ValueView::UInt(n as u64),
{
    Value::UInt(n as u64)
}

/// The length that an unsigned integer holds, if it can be one.
fn as_size(v: &Value) -> (r: Option<usize>)
    ensures
        r is Some <==> is_size(v@),
        r matches Some(n) ==> v@ == ValueView::UInt(n as u64),
{
    match v {
        Value::UInt(u) => if *u <= usize::MAX as u64 {
            Some(*u as usize)
        } else {
            None
        },
        _ => None,
    }
}

/// An optional text as a value.
fn optional_text_value(o: &Option<String>) -> (v: Value)
    ensures
        v@ == optional_text(*o),
{
    proof {
        reveal_with_fuel(value_view, 2);
    }
    match o {
        Some(s) => Value::Present(Box::new(Value::Text(s.clone()))),
        None => Value::Absent,
    }
}

/// The optional text that a value holds.
fn as_optional_text(v: &Value) -> (r: Option<Option<String>>)
    ensures
        r is Some <==> is_optional_text(v@),
        r matches Some(o) ==> v@ == optional_text(o),
{
    proof {
        reveal_with_fuel(value_view, 2);
    }
    match v {
        Value::Absent => Some(None),
        Value::Present(p) => match &**p {
            Value::Text(s) => Some(Some(s.clone())),
            _ => None,
        },
        _ => None,
    }
}

/// Whether the field is called `name`.
fn named(field: &(String, Value), name: &str) -> (r: bool)
    ensures
        r == (field.0@ == name@),
{
    field.0 == String::from_str(name)
}

impl File {
    /// The shape of a file on the wire.
    pub fn shape() -> (s: Shape)
        ensures
            s@ == file_shape(),
    {
        proof {
            reveal_with_fuel(shape_view, 3);
        }
        let s = Shape::Record(
            vec![
                (String::from_str("length"), Shape::UInt),
                (String::from_str("path"), Shape::List(Box::new(Shape::Text))),
            ],
        );
        assert(s@->Record_0 =~= file_shape()->Record_0);
        s
    }

    /// The file as a value of the codec.
    pub fn to_value(&self) -> (v: Value)
        ensures
            v@ == file_value(*self),
    {
        let v = Value::Record(
            vec![
                (String::from_str("length"), size_value(self.length)),
                (String::from_str("path"), text_list(&self.path)),
            ],
        );
        assert(v@->Record_0 =~= file_value(*self)->Record_0);
        v
    }

    /// The file that a value of the codec holds.
    pub fn from_value(v: &Value) -> (r: Result<File, Error>)
        ensures
            r is Ok <==> is_file(v@),
            r matches Ok(f) ==> file_value(f) == v@,
            r matches Err(e) ==> e@ == invalid_metadata(),
    {
        match v {
            Value::Record(fields) => {
                let ghost views = v@->Record_0;
                if fields.len() != 2 {
                    return invalid();
                }
                assert(views[0] == (fields@[0].0@, fields@[0].1@));
                assert(views[1] == (fields@[1].0@, fields@[1].1@));
                if !named(&fields[0], "length") || !named(&fields[1], "path") {
                    return invalid();
                }
                let length = match as_size(&fields[0].1) {
                    Some(n) => n,
                    None => { return invalid(); },
                };
                let path = match as_text_list(&fields[1].1) {
                    Some(p) => p,
                    None => { return invalid(); },
                };
                let f = File { length, path };
                assert(file_value(f)->Record_0 =~= views);
                Ok(f)
            },
            _ => invalid(),
        }
    }
}

/// A list of files as a value.
fn file_list(files: &Vec<File>) -> (v: Value)
    ensures
        v@ == ValueView::List(file_values(files@)),
{
    let mut out: Vec<Value> = Vec::new();
    let mut i: usize = 0;
    while i < files.len()
        invariant
            i <= files.len(),
            out@.len() == i,
            forall|k: int| 0 <= k < i ==> (#[trigger] out@[k])@ == file_value(files@[k]),
        decreases files.len() - i,
    {
        out.push(files[i].to_value());
        i = i + 1;
    }
    let v = Value::List(out);
    assert(v@->List_0 =~= file_values(files@));
    v
}

/// The files that a list of files holds.
fn as_file_list(v: &Value) -> (r: Option<Vec<File>>)
    ensures
        r is Some <==> is_file_list(v@),
        r matches Some(l) ==> v@ == ValueView::List(file_values(l@)),
{
    match v {
        Value::List(items) => {
            let ghost views = v@->List_0;
            let mut out: Vec<File> = Vec::new();
            let mut i: usize = 0;
            while i < items.len()
                invariant
                    i <= items.len(),
                    v@ == ValueView::List(views),
                    views.len() == items.len(),
                    forall|k: int| 0 <= k < items.len() ==> views[k] == items@[k]@,
                    out@.len() == i,
                    forall|k: int| 0 <= k < i ==> views[k] == file_value(#[trigger] out@[k]),
                    forall|k: int| 0 <= k < i ==> is_file(#[trigger] views[k]),
                decreases items.len() - i,
            {
                match File::from_value(&items[i]) {
                    Ok(f) => {
                        out.push(f);
                    },
                    Err(_) => {
                        assert(!is_file(views[i as int]));
                        assert(views == v@->List_0);
                        assert(is_file_list(v@) ==> is_file(v@->List_0[i as int]));
                        assert(!is_file_list(v@));
                        return None;
                    },
                }
                i = i + 1;
            }
            assert(views =~= file_values(out@));
            Some(out)
        },
        _ => None,
    }
}

/// Tiers of texts as a value.
fn tier_list(list: &Vec<Vec<String>>) -> (v: Value)
    ensures
        v@ == ValueView::List(tiers(list@)),
{
    let mut out: Vec<Value> = Vec::new();
    let mut i: usize = 0;
    while i < list.len()
        invariant
            i <= list.len(),
            out@.len() == i,
            forall|k: int|
                0 <= k < i ==> (#[trigger] out@[k])@ == ValueView::List(texts(list@[k]@)),
        decreases list.len() - i,
    {
        out.push(text_list(&list[i]));
        i = i + 1;
    }
    let v = Value::List(out);
    assert(v@->List_0 =~= tiers(list@));
    v
}

/// The tiers that a list of lists of texts holds.
fn as_tier_list(v: &Value) -> (r: Option<Vec<Vec<String>>>)
    ensures
        r is Some <==> is_tier_list(v@),
        r matches Some(l) ==> v@ == ValueView::List(tiers(l@)),
{
    match v {
        Value::List(items) => {
            let ghost views = v@->List_0;
            let mut out: Vec<Vec<String>> = Vec::new();
            let mut i: usize = 0;
            while i < items.len()
                invariant
                    i <= items.len(),
                    v@ == ValueView::List(views),
                    views.len() == items.len(),
                    forall|k: int| 0 <= k < items.len() ==> views[k] == items@[k]@,
                    out@.len() == i,
                    forall|k: int|
                        0 <= k < i ==> views[k] == ValueView::List(texts((#[trigger] out@[k])@)),
                    forall|k: int| 0 <= k < i ==> is_text_list(#[trigger] views[k]),
                decreases items.len() - i,
            {
                match as_text_list(&items[i]) {
                    Some(tier) => {
                        out.push(tier);
                    },
                    None => {
                        assert(!is_text_list(views[i as int]));
                        assert(views == v@->List_0);
                        assert(is_tier_list(v@) ==> is_text_list(v@->List_0[i as int]));
                        assert(!is_tier_list(v@));
                        return None;
                    },
                }
                i = i + 1;
            }
            assert(views =~= tiers(out@));
            Some(out)
        },
        _ => None,
    }
}

/// The shape of a description on the wire.
pub open spec fn info_shape() -> ShapeView {
    ShapeView::Record(
        seq![
            ("files"@, ShapeView::Optional(Box::new(ShapeView::List(Box::new(file_shape()))))),
            ("length"@, ShapeView::Optional(Box::new(ShapeView::UInt))),
            ("name"@, ShapeView::Text),
            ("piece length"@, ShapeView::UInt),
            ("pieces"@, ShapeView::Bytes),
        ],
    )
}

/// The shape of an optional text.
pub open spec fn optional_text_shape() -> ShapeView {
    ShapeView::Optional(Box::new(ShapeView::Text))
}

/// The shape of a torrent's metadata on the wire.
pub open spec fn meta_info_shape() -> ShapeView {
    ShapeView::Record(
        seq![
            ("announce"@, ShapeView::Text),
            (
                "announce-list"@,
                ShapeView::Optional(
                    Box::new(
                        ShapeView::List(Box::new(ShapeView::List(Box::new(ShapeView::Text)))),
                    ),
                ),
            ),
            ("comment"@, optional_text_shape()),
            ("created by"@, optional_text_shape()),
            ("creation date"@, ShapeView::Optional(Box::new(ShapeView::UInt))),
            ("encoding"@, optional_text_shape()),
            ("info"@, info_shape()),
        ],
    )
}

fn optional_shape(inner: Shape) -> (s: Shape)
    ensures
        s@ == ShapeView::Optional(Box::new(inner@)),
{
    Shape::Optional(Box::new(inner))
}

fn list_shape(element: Shape) -> (s: Shape)
    ensures
        s@ == ShapeView::List(Box::new(element@)),
{
    Shape::List(Box::new(element))
}

fn present(inner: Value) -> (v: Value)
    ensures
        v@ == ValueView::Present(Box::new(inner@)),
{
    Value::Present(Box::new(inner))
}

fn text_value(s: &String) -> (v: Value)
    ensures
        v@ == ValueView::Text(s@),
{
    Value::Text(s.clone())
}

impl Info {
    /// The shape of a description on the wire.
    pub fn shape() -> (s: Shape)
        ensures
            s@ == info_shape(),
    {
        proof {
            reveal_with_fuel(shape_view, 2);
        }
        let s = Shape::Record(
            vec![
                (String::from_str("files"), optional_shape(list_shape(File::shape()))),
                (String::from_str("length"), optional_shape(Shape::UInt)),
                (String::from_str("name"), Shape::Text),
                (String::from_str("piece length"), Shape::UInt),
                (String::from_str("pieces"), Shape::Bytes),
            ],
        );
        assert(s@->Record_0 =~= info_shape()->Record_0);
        s
    }

    /// The description as a value of the codec.
    pub fn to_value(&self) -> (v: Value)
        ensures
            v@ == info_value(*self),
    {
        proof {
            reveal_with_fuel(value_view, 2);
        }
        let (files, length) = match &self.file_info {
            FileInfo::SingleFile { length } => (Value::Absent, present(size_value(*length))),
            FileInfo::MultiFile { files } => (present(file_list(files)), Value::Absent),
        };
        let pieces = Value::Bytes(pieces_bytes::serialize(&self.pieces));
        let v = Value::Record(
            vec![
                (String::from_str("files"), files),
                (String::from_str("length"), length),
                (String::from_str("name"), text_value(&self.name)),
                (String::from_str("piece length"), size_value(self.piece_length)),
                (String::from_str("pieces"), pieces),
            ],
        );
        assert(v@->Record_0 =~= info_value(*self)->Record_0);
        v
    }

    /// The description that a value of the codec holds. A record with a
    /// length describes a single file, whatever stands under `files`.
    pub fn from_value(v: &Value) -> (r: Result<Info, Error>)
        ensures
            r is Ok <==> is_info(v@),
            r matches Ok(i) ==> info_value(i) == canonical_info(v@),
            r matches Err(e) ==> e@ == invalid_metadata(),
    {
        proof {
            reveal_with_fuel(value_view, 2);
        }
        match v {
            Value::Record(fields) => {
                let ghost views = v@->Record_0;
                if fields.len() != 5 {
                    return invalid();
                }
                assert(forall|k: int|
                    0 <= k < 5 ==> #[trigger] views[k] == (fields@[k].0@, fields@[k].1@));
                if !named(&fields[0], "files") || !named(&fields[1], "length") || !named(
                    &fields[2],
                    "name",
                ) || !named(&fields[3], "piece length") || !named(&fields[4], "pieces") {
                    return invalid();
                }
                let length = match &fields[1].1 {
                    Value::Absent => None,
                    Value::Present(p) => match as_size(p) {
                        Some(n) => Some(n),
                        None => { return invalid(); },
                    },
                    _ => { return invalid(); },
                };
                let file_info = match length {
                    Some(n) => FileInfo::SingleFile { length: n },
                    None => match &fields[0].1 {
                        Value::Present(p) => match as_file_list(p) {
                            Some(files) => FileInfo::MultiFile { files },
                            None => { return invalid(); },
                        },
                        _ => { return invalid(); },
                    },
                };
                let name = match &fields[2].1 {
                    Value::Text(s) => s.clone(),
                    _ => { return invalid(); },
                };
                let piece_length = match as_size(&fields[3].1) {
                    Some(n) => n,
                    None => { return invalid(); },
                };
                let pieces = match &fields[4].1 {
                    Value::Bytes(b) => pieces_bytes::deserialize(b.as_slice()),
                    _ => { return invalid(); },
                };
                let i = Info { file_info, name, piece_length, pieces };
                assert(info_value(i)->Record_0 =~= canonical_info(v@)->Record_0);
                Ok(i)
            },
            _ => invalid(),
        }
    }
}

impl MetaInfo {
    /// The shape of a torrent's metadata on the wire.
    pub fn shape() -> (s: Shape)
        ensures
            s@ == meta_info_shape(),
    {
        proof {
            reveal_with_fuel(shape_view, 2);
        }
        let s = Shape::Record(
            vec![
                (String::from_str("announce"), Shape::Text),
                (
                    String::from_str("announce-list"),
                    optional_shape(list_shape(list_shape(Shape::Text))),
                ),
                (String::from_str("comment"), optional_shape(Shape::Text)),
                (String::from_str("created by"), optional_shape(Shape::Text)),
                (String::from_str("creation date"), optional_shape(Shape::UInt)),
                (String::from_str("encoding"), optional_shape(Shape::Text)),
                (String::from_str("info"), Info::shape()),
            ],
        );
        assert(s@->Record_0 =~= meta_info_shape()->Record_0);
        s
    }

    /// The metadata as a value of the codec.
    pub fn to_value(&self) -> (v: Value)
        ensures
            v@ == meta_info_value(*self),
    {
        proof {
            reveal_with_fuel(value_view, 2);
        }
        let announce_list = match &self.announce_list {
            Some(l) => present(tier_list(l)),
            None => Value::Absent,
        };
        let creation_date = match &self.creation_date {
            Some(d) => present(Value::UInt(*d)),
            None => Value::Absent,
        };
        let v = Value::Record(
            vec![
                (String::from_str("announce"), text_value(&self.announce)),
                (String::from_str("announce-list"), announce_list),
                (String::from_str("comment"), optional_text_value(&self.comment)),
                (String::from_str("created by"), optional_text_value(&self.created_by)),
                (String::from_str("creation date"), creation_date),
                (String::from_str("encoding"), optional_text_value(&self.encoding)),
                (String::from_str("info"), self.info.to_value()),
            ],
        );
        assert(v@->Record_0 =~= meta_info_value(*self)->Record_0);
        v
    }

    /// The metadata that a value of the codec holds.
    pub fn from_value(v: &Value) -> (r: Result<MetaInfo, Error>)
        ensures
            r is Ok <==> is_meta_info(v@),
            r matches Ok(m) ==> meta_info_value(m) == canonical_meta_info(v@),
            r matches Err(e) ==> e@ == invalid_metadata(),
    {
        proof {
            reveal_with_fuel(value_view, 2);
        }
        match v {
            Value::Record(fields) => {
                let ghost views = v@->Record_0;
                if fields.len() != 7 {
                    return invalid();
                }
                assert(forall|k: int|
                    0 <= k < 7 ==> #[trigger] views[k] == (fields@[k].0@, fields@[k].1@));
                if !named(&fields[0], "announce") || !named(&fields[1], "announce-list")
                    || !named(&fields[2], "comment") || !named(&fields[3], "created by")
                    || !named(&fields[4], "creation date") || !named(&fields[5], "encoding")
                    || !named(&fields[6], "info") {
                    return invalid();
                }
                let announce = match &fields[0].1 {
                    Value::Text(s) => s.clone(),
                    _ => { return invalid(); },
                };
                let announce_list = match &fields[1].1 {
                    Value::Absent => None,
                    Value::Present(p) => match as_tier_list(p) {
                        Some(l) => Some(l),
                        None => { return invalid(); },
                    },
                    _ => { return invalid(); },
                };
                let comment = match as_optional_text(&fields[2].1) {
                    Some(o) => o,
                    None => { return invalid(); },
                };
                let created_by = match as_optional_text(&fields[3].1) {
                    Some(o) => o,
                    None => { return invalid(); },
                };
                let creation_date = match &fields[4].1 {
                    Value::Absent => None,
                    Value::Present(p) => match &**p {
                        Value::UInt(d) => Some(*d),
                        _ => { return invalid(); },
                    },
                    _ => { return invalid(); },
                };
                let encoding = match as_optional_text(&fields[5].1) {
                    Some(o) => o,
                    None => { return invalid(); },
                };
                let info = match Info::from_value(&fields[6].1) {
                    Ok(i) => i,
                    Err(e) => { return Err(e); },
                };
                let m = MetaInfo {
                    announce,
                    announce_list,
                    comment,
                    created_by,
                    creation_date,
                    encoding,
                    info,
                };
                assert(meta_info_value(m)->Record_0 =~= canonical_meta_info(v@)->Record_0);
                Ok(m)
            },
            _ => invalid(),
        }
    }
}

/// The shape of a file on the wire.
pub open spec fn file_shape() -> ShapeView {
    ShapeView::Record(
        seq![("length"@, ShapeView::UInt), ("path"@, ShapeView::List(Box::new(ShapeView::Text)))],
    )
}

} // verus!
