//! What holds of the metadata as a value: it keeps its form through the
//! codec.

use crate::bencode::error::ErrorView;
use crate::bencode::exact::lemma_encoded_again;
use crate::bencode::grammar::{decode, decode_all};
use crate::bencode::canonical::{
    in_order, lemma_bytes_less_at, lemma_sorted_names_distinct, name_less, sorted_names,
    sorted_shape,
};
use crate::bencode::laws::{conforms, distinct_names, fits, lemma_round_trip};
use crate::bencode::value::{encode, within, ShapeView, ValueView, MAX_DEPTH};
use crate::metainfo::pieces_bytes::{lemma_joined_len, lemma_split_joined, pieces_view};
use crate::metainfo::{
    canonical_info, canonical_meta_info, file_shape, file_value, file_values, info_shape,
    info_value, is_file, is_file_list, is_info, is_meta_info, is_text_list, is_tier_list,
    meta_info_shape, meta_info_value, optional_text, optional_text_shape, texts, tiers, File,
    FileInfo, Info, MetaInfo,
};
use vstd::prelude::*;
use vstd::utf8::{encode_utf8, is_ascii_chars, is_ascii_chars_encode_utf8};

verus! {

/// The text is short enough for a length prefix.
pub open spec fn text_fits(s: String) -> bool {
    fits(encode_utf8(s@))
}

/// Every text of the list is short enough for a length prefix.
pub open spec fn texts_fit(s: Seq<String>) -> bool {
    forall|i: int| 0 <= i < s.len() ==> text_fits(#[trigger] s[i])
}

/// The text, if there is one, is short enough for a length prefix.
pub open spec fn optional_text_fits(o: Option<String>) -> bool {
    o matches Some(s) ==> text_fits(s)
}

/// The length lies in the signed range, in which the wire holds it.
pub open spec fn size_fits(n: usize) -> bool {
    n <= i64::MAX
}

/// The file can go over the wire and come back.
pub open spec fn file_in_range(f: File) -> bool {
    size_fits(f.length) && texts_fit(f.path@)
}

/// The description can go over the wire and come back.
pub open spec fn info_in_range(i: Info) -> bool {
    &&& text_fits(i.name)
    &&& size_fits(i.piece_length)
    &&& 20 * i.pieces@.len() <= u64::MAX
    &&& match i.file_info {
        FileInfo::SingleFile { length } => size_fits(length),
        FileInfo::MultiFile { files } => forall|k: int|
            0 <= k < files@.len() ==> file_in_range(#[trigger] files@[k]),
    }
}

/// The metadata can go over the wire and come back: its numbers lie in the
/// signed range, and its texts and its pieces are short enough for a length
/// prefix.
pub open spec fn in_range(m: MetaInfo) -> bool {
    &&& text_fits(m.announce)
    &&& m.announce_list matches Some(l) ==> forall|k: int|
        0 <= k < l@.len() ==> texts_fit((#[trigger] l@[k])@)
    &&& optional_text_fits(m.comment)
    &&& optional_text_fits(m.created_by)
    &&& m.creation_date matches Some(d) ==> d <= i64::MAX
    &&& optional_text_fits(m.encoding)
    &&& info_in_range(m.info)
}

/// The names of the fields are short, and no two of one record are equal.
proof fn lemma_names()
    ensures
        fits(encode_utf8("length"@)),
        fits(encode_utf8("path"@)),
        fits(encode_utf8("files"@)),
        fits(encode_utf8("name"@)),
        fits(encode_utf8("piece length"@)),
        fits(encode_utf8("pieces"@)),
        fits(encode_utf8("announce"@)),
        fits(encode_utf8("announce-list"@)),
        fits(encode_utf8("comment"@)),
        fits(encode_utf8("created by"@)),
        fits(encode_utf8("creation date"@)),
        fits(encode_utf8("encoding"@)),
        fits(encode_utf8("info"@)),
        distinct_names(file_shape()->Record_0),
        distinct_names(info_shape()->Record_0),
        distinct_names(meta_info_shape()->Record_0),
{
    reveal_strlit("length");
    reveal_strlit("path");
    reveal_strlit("files");
    reveal_strlit("name");
    reveal_strlit("piece length");
    reveal_strlit("pieces");
    reveal_strlit("announce");
    reveal_strlit("announce-list");
    reveal_strlit("comment");
    reveal_strlit("created by");
    reveal_strlit("creation date");
    reveal_strlit("encoding");
    reveal_strlit("info");
    lemma_short_ascii("length"@);
    lemma_short_ascii("path"@);
    lemma_short_ascii("files"@);
    lemma_short_ascii("name"@);
    lemma_short_ascii("piece length"@);
    lemma_short_ascii("pieces"@);
    lemma_short_ascii("announce"@);
    lemma_short_ascii("announce-list"@);
    lemma_short_ascii("comment"@);
    lemma_short_ascii("created by"@);
    lemma_short_ascii("creation date"@);
    lemma_short_ascii("encoding"@);
    lemma_short_ascii("info"@);
    lemma_meta_info_shape_sorted();
    lemma_sorted_names_distinct(file_shape()->Record_0);
    lemma_sorted_names_distinct(info_shape()->Record_0);
    lemma_sorted_names_distinct(meta_info_shape()->Record_0);
}

/// A text of ASCII characters is encoded in one byte for each.
proof fn lemma_short_ascii(s: Seq<char>)
    requires
        is_ascii_chars(s),
        s.len() <= 64,
    ensures
        fits(encode_utf8(s)),
{
    is_ascii_chars_encode_utf8(s);
}

/// Two names of ASCII characters that agree before the position `k`, where
/// the first holds the lesser character or ends while the second goes on,
/// stand in order.
proof fn lemma_name_less_at(a: Seq<char>, b: Seq<char>, k: int)
    requires
        is_ascii_chars(a),
        is_ascii_chars(b),
        0 <= k <= a.len(),
        k < b.len(),
        forall|i: int| 0 <= i < k ==> a[i] == b[i],
        k == a.len() || a[k] < b[k],
    ensures
        name_less(a, b),
{
    is_ascii_chars_encode_utf8(a);
    is_ascii_chars_encode_utf8(b);
    let x = encode_utf8(a);
    let y = encode_utf8(b);
    assert forall|i: int| 0 <= i < k implies x[i] == y[i] by {
        assert(a[i] as u8 == x[i]);
        assert(b[i] as u8 == y[i]);
    }
    if k < a.len() {
        assert(a[k] as u8 == x[k]);
        assert(b[k] as u8 == y[k]);
    }
    lemma_bytes_less_at(x, y, k);
}

/// **The shapes are sorted.** The metadata, its description and its files
/// declare their fields in the order of their names as bytes, which is the
/// order of the keys of a canonical dictionary.
pub proof fn lemma_meta_info_shape_sorted()
    ensures
        sorted_shape(file_shape()),
        sorted_shape(info_shape()),
        sorted_shape(meta_info_shape()),
{
    reveal_strlit("length");
    reveal_strlit("path");
    reveal_strlit("files");
    reveal_strlit("name");
    reveal_strlit("piece length");
    reveal_strlit("pieces");
    reveal_strlit("announce");
    reveal_strlit("announce-list");
    reveal_strlit("comment");
    reveal_strlit("created by");
    reveal_strlit("creation date");
    reveal_strlit("encoding");
    reveal_strlit("info");
    reveal_with_fuel(sorted_shape, 5);
    let file = file_shape()->Record_0;
    lemma_name_less_at("length"@, "path"@, 0);
    assert(in_order(file, 0));
    assert(sorted_names(file));
    assert(sorted_shape(file_shape()));
    let info = info_shape()->Record_0;
    lemma_name_less_at("files"@, "length"@, 0);
    lemma_name_less_at("length"@, "name"@, 0);
    lemma_name_less_at("name"@, "piece length"@, 0);
    lemma_name_less_at("piece length"@, "pieces"@, 5);
    assert(in_order(info, 0) && in_order(info, 1) && in_order(info, 2) && in_order(info, 3));
    assert(sorted_names(info));
    assert(sorted_shape(info_shape()));
    let meta = meta_info_shape()->Record_0;
    lemma_name_less_at("announce"@, "announce-list"@, 8);
    lemma_name_less_at("announce-list"@, "comment"@, 0);
    lemma_name_less_at("comment"@, "created by"@, 1);
    lemma_name_less_at("created by"@, "creation date"@, 5);
    lemma_name_less_at("creation date"@, "encoding"@, 0);
    lemma_name_less_at("encoding"@, "info"@, 0);
    assert(in_order(meta, 0) && in_order(meta, 1) && in_order(meta, 2) && in_order(meta, 3)
        && in_order(meta, 4) && in_order(meta, 5));
    assert(sorted_names(meta));
}

/// A list of texts that fit conforms to the shape of a list of texts.
proof fn lemma_texts_conform(s: Seq<String>)
    requires
        texts_fit(s),
    ensures
        conforms(ValueView::List(texts(s)), ShapeView::List(Box::new(ShapeView::Text))),
        is_text_list(ValueView::List(texts(s))),
{
    let items = texts(s);
    assert forall|i: int| 0 <= i < items.len() implies conforms(
        #[trigger] items[i],
        ShapeView::Text,
    ) by {
        assert(text_fits(s[i]));
    }
}

/// A file in range conforms to the shape of a file.
proof fn lemma_file_conforms(f: File)
    requires
        file_in_range(f),
    ensures
        conforms(file_value(f), file_shape()),
{
    reveal_with_fuel(conforms, 2);
    lemma_names();
    lemma_texts_conform(f.path@);
}

/// A description in range conforms to the shape of a description.
proof fn lemma_info_conforms(i: Info)
    requires
        info_in_range(i),
    ensures
        conforms(info_value(i), info_shape()),
{
    reveal_with_fuel(conforms, 3);
    lemma_names();
    let values = info_value(i)->Record_0;
    let fields = info_shape()->Record_0;
    let pieces = pieces_view(i.pieces@);
    assert forall|k: int| 0 <= k < pieces.len() implies (#[trigger] pieces[k]).len() == 20 by {
        assert(pieces[k] == i.pieces@[k]@);
    }
    lemma_joined_len(pieces);
    match i.file_info {
        FileInfo::SingleFile { length } => {},
        FileInfo::MultiFile { files } => {
            let items = file_values(files@);
            assert forall|k: int| 0 <= k < items.len() implies conforms(
                #[trigger] items[k],
                file_shape(),
            ) by {
                assert(file_in_range(files@[k]));
                lemma_file_conforms(files@[k]);
            }
            assert(conforms(ValueView::List(items), ShapeView::List(Box::new(file_shape()))));
        },
    }
    assert(conforms(values[0].1, fields[0].1) || (values[0].1 is Absent));
    assert(conforms(values[1].1, fields[1].1) || (values[1].1 is Absent));
    assert(conforms(values[2].1, fields[2].1));
    assert(conforms(values[3].1, fields[3].1));
    assert(conforms(values[4].1, fields[4].1));
}

/// An optional text that fits conforms to the shape of an optional text,
/// or is absent.
proof fn lemma_optional_text_conforms(o: Option<String>)
    requires
        optional_text_fits(o),
    ensures
        optional_text(o) is Absent || conforms(optional_text(o), optional_text_shape()),
{
    reveal_with_fuel(conforms, 2);
}

/// **The metadata conforms.** A metadata in range, as a value, conforms to
/// the shape of the metadata.
pub proof fn lemma_meta_info_conforms(m: MetaInfo)
    requires
        in_range(m),
    ensures
        conforms(meta_info_value(m), meta_info_shape()),
{
    reveal_with_fuel(conforms, 3);
    lemma_names();
    lemma_info_conforms(m.info);
    lemma_optional_text_conforms(m.comment);
    lemma_optional_text_conforms(m.created_by);
    lemma_optional_text_conforms(m.encoding);
    let values = meta_info_value(m)->Record_0;
    let fields = meta_info_shape()->Record_0;
    match m.announce_list {
        Some(l) => {
            let items = tiers(l@);
            let tier = ShapeView::List(Box::new(ShapeView::Text));
            assert forall|k: int| 0 <= k < items.len() implies conforms(
                #[trigger] items[k],
                tier,
            ) by {
                assert(texts_fit(l@[k]@));
                lemma_texts_conform(l@[k]@);
            }
            assert(conforms(ValueView::List(items), ShapeView::List(Box::new(tier))));
        },
        None => {},
    }
    assert(conforms(values[0].1, fields[0].1));
    assert(conforms(values[1].1, fields[1].1) || (values[1].1 is Absent));
    assert(conforms(values[2].1, fields[2].1) || (values[2].1 is Absent));
    assert(conforms(values[3].1, fields[3].1) || (values[3].1 is Absent));
    assert(conforms(values[4].1, fields[4].1) || (values[4].1 is Absent));
    assert(conforms(values[5].1, fields[5].1) || (values[5].1 is Absent));
    assert(conforms(values[6].1, fields[6].1));
}

/// **Round trip of the metadata.** A metadata in range, encoded and decoded
/// by the shape of the metadata, is the same value again, and what followed
/// its encoding is left unread.
pub proof fn lemma_meta_info_round_trip(m: MetaInfo, tail: Seq<u8>)
    requires
        in_range(m),
    ensures
        decode(meta_info_shape(), encode(meta_info_value(m)) + tail, MAX_DEPTH as nat) == (
            Ok::<ValueView, ErrorView>(meta_info_value(m)),
            tail,
        ),
{
    lemma_meta_info_conforms(m);
    lemma_meta_info_within(m);
    lemma_round_trip(meta_info_shape(), meta_info_value(m), tail, MAX_DEPTH as nat);
}

/// **A torrent is encoded again as it was.** Bytes that are decoded as a
/// metadata, and hold nothing that the metadata does not keep (no key but
/// those of its fields, whole hashes, no `files` beside a `length`), are
/// the encoding of that metadata: the record encoded again gives the bytes
/// of the torrent.
pub proof fn lemma_meta_info_encoded_again(s: Seq<u8>, m: MetaInfo)
    requires
        decode_all(meta_info_shape(), s, MAX_DEPTH as nat) is Ok,
        ({
            let v = decode_all(meta_info_shape(), s, MAX_DEPTH as nat)->Ok_0;
            &&& is_meta_info(v)
            &&& meta_info_value(m) == canonical_meta_info(v)
            &&& canonical_meta_info(v) == v
            &&& encode(v).len() == s.len()
        }),
    ensures
        encode(meta_info_value(m)) == s,
{
    lemma_encoded_again(meta_info_shape(), s, MAX_DEPTH as nat);
}

/// **The metadata is shallow.** As a value a metadata nests six levels at
/// the most, far fewer than the codec follows.
pub proof fn lemma_meta_info_within(m: MetaInfo)
    ensures
        within(meta_info_value(m), MAX_DEPTH as nat),
{
    reveal_with_fuel(within, 4);
    let below = |levels: nat| (MAX_DEPTH - levels) as nat;
    match m.announce_list {
        Some(l) => {
            let items = tiers(l@);
            assert forall|k: int| 0 <= k < items.len() implies within(
                #[trigger] items[k],
                below(3),
            ) by {
                let tier = texts(l@[k]@);
                assert forall|j: int| 0 <= j < tier.len() implies within(
                    #[trigger] tier[j],
                    below(4),
                ) by {}
            }
            assert(within(ValueView::List(items), below(2)));
        },
        None => {},
    }
    match m.info.file_info {
        FileInfo::SingleFile { length } => {},
        FileInfo::MultiFile { files } => {
            let items = file_values(files@);
            assert forall|k: int| 0 <= k < items.len() implies within(
                #[trigger] items[k],
                below(4),
            ) by {
                let path = texts(files@[k].path@);
                assert forall|j: int| 0 <= j < path.len() implies within(
                    #[trigger] path[j],
                    below(6),
                ) by {}
                assert(within(ValueView::List(path), below(5)));
                let fields = file_value(files@[k])->Record_0;
                assert forall|j: int| 0 <= j < fields.len() implies within(
                    (#[trigger] fields[j]).1,
                    below(5),
                ) by {}
            }
            assert(within(ValueView::List(items), below(3)));
        },
    }
    let info = info_value(m.info)->Record_0;
    assert forall|j: int| 0 <= j < info.len() implies within((#[trigger] info[j]).1, below(2)) by {}
    assert(within(info_value(m.info), below(1)));
    let meta = meta_info_value(m)->Record_0;
    assert forall|j: int| 0 <= j < meta.len() implies within((#[trigger] meta[j]).1, below(1)) by {}
}

/// **The value of a metadata is canonical.** Read back from its own value,
/// a metadata gives that value again.
pub proof fn lemma_meta_info_value_is_canonical(m: MetaInfo)
    ensures
        is_meta_info(meta_info_value(m)),
        canonical_meta_info(meta_info_value(m)) == meta_info_value(m),
{
    let i = m.info;
    let pieces = pieces_view(i.pieces@);
    assert forall|k: int| 0 <= k < pieces.len() implies (#[trigger] pieces[k]).len() == 20 by {
        assert(pieces[k] == i.pieces@[k]@);
    }
    lemma_split_joined(pieces);
    match i.file_info {
        FileInfo::SingleFile { length } => {},
        FileInfo::MultiFile { files } => {
            let items = file_values(files@);
            assert forall|k: int| 0 <= k < items.len() implies is_file(#[trigger] items[k]) by {
                let path = texts(files@[k].path@);
                assert forall|j: int| 0 <= j < path.len() implies #[trigger] path[j] is Text by {}
            }
            assert(is_file_list(ValueView::List(items)));
        },
    }
    assert(is_info(info_value(i)));
    assert(canonical_info(info_value(i))->Record_0 =~= info_value(i)->Record_0);
    match m.announce_list {
        Some(l) => {
            let items = tiers(l@);
            assert forall|k: int| 0 <= k < items.len() implies is_text_list(
                #[trigger] items[k],
            ) by {
                let tier = texts(l@[k]@);
                assert forall|j: int| 0 <= j < tier.len() implies #[trigger] tier[j] is Text by {}
            }
            assert(is_tier_list(ValueView::List(items)));
        },
        None => {},
    }
    assert(canonical_meta_info(meta_info_value(m))->Record_0 =~= meta_info_value(m)->Record_0);
}

} // verus!
