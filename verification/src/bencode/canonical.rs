//! The order of keys. A canonical dictionary holds its keys sorted as raw
//! bytes. The encoder writes the fields of a record in the order in which
//! the record declares them and does not sort: whether a shape declares
//! them sorted is checked here.

use crate::bencode::deserializer::{field_shapes_view, payload_view, variants_view};
use crate::bencode::laws::distinct_names;
use crate::bencode::value::{Shape, ShapeView};
use vstd::prelude::*;
use vstd::utf8::encode_utf8;

verus! {

/// `a` stands before `b` in the order of byte strings: at the first
/// position where they differ `a` holds the lesser byte, or `a` ends there
/// and `b` goes on.
pub open spec fn bytes_less(a: Seq<u8>, b: Seq<u8>) -> bool
    decreases a.len(),
{
    if b.len() == 0 {
        false
    } else if a.len() == 0 {
        true
    } else if a[0] != b[0] {
        a[0] < b[0]
    } else {
        bytes_less(a.skip(1), b.skip(1))
    }
}

/// The name `a` stands before the name `b` as its UTF-8 bytes do.
pub open spec fn name_less(a: Seq<char>, b: Seq<char>) -> bool {
    bytes_less(encode_utf8(a), encode_utf8(b))
}

/// The field at `i` stands before the one after it.
pub open spec fn in_order(fields: Seq<(Seq<char>, ShapeView)>, i: int) -> bool {
    name_less(fields[i].0, fields[i + 1].0)
}

/// Each field stands before the next.
pub open spec fn sorted_names(fields: Seq<(Seq<char>, ShapeView)>) -> bool {
    forall|i: int| 0 <= i < fields.len() - 1 ==> #[trigger] in_order(fields, i)
}

/// Every record of the shape, however deep, declares its fields sorted.
pub open spec fn sorted_shape(s: ShapeView) -> bool
    decreases s,
{
    match s {
        ShapeView::Optional(inner) => sorted_shape(*inner),
        ShapeView::List(element) => sorted_shape(*element),
        ShapeView::Tuple(shapes) => forall|i: int|
            0 <= i < shapes.len() ==> sorted_shape(#[trigger] shapes[i]),
        ShapeView::Dict(key, value) => sorted_shape(*key) && sorted_shape(*value),
        ShapeView::Record(fields) => sorted_names(fields) && forall|i: int|
            0 <= i < fields.len() ==> sorted_shape((#[trigger] fields[i]).1),
        ShapeView::Enum(variants) => forall|i: int|
            0 <= i < variants.len() ==> ((#[trigger] variants[i]).1 matches Some(p)
                ==> sorted_shape(p)),
        _ => true,
    }
}

/// Byte strings that agree before the position `k`, where `a` holds the
/// lesser byte or ends while `b` goes on, stand in order.
pub proof fn lemma_bytes_less_at(a: Seq<u8>, b: Seq<u8>, k: int)
    requires
        0 <= k <= a.len(),
        k < b.len(),
        forall|i: int| 0 <= i < k ==> a[i] == b[i],
        k == a.len() || a[k] < b[k],
    ensures
        bytes_less(a, b),
    decreases k,
{
    if k > 0 {
        let x = a.skip(1);
        let y = b.skip(1);
        assert forall|i: int| 0 <= i < k - 1 implies x[i] == y[i] by {
            assert(x[i] == a[i + 1] && y[i] == b[i + 1]);
        }
        lemma_bytes_less_at(x, y, k - 1);
    }
}

/// Nothing stands before itself.
pub proof fn lemma_bytes_less_irreflexive(a: Seq<u8>)
    ensures
        !bytes_less(a, a),
    decreases a.len(),
{
    if a.len() > 0 {
        lemma_bytes_less_irreflexive(a.skip(1));
    }
}

/// What stands before a byte string stands before all that it stands before.
pub proof fn lemma_bytes_less_transitive(a: Seq<u8>, b: Seq<u8>, c: Seq<u8>)
    requires
        bytes_less(a, b),
        bytes_less(b, c),
    ensures
        bytes_less(a, c),
    decreases a.len(),
{
    if a.len() > 0 && a[0] == b[0] && b[0] == c[0] {
        lemma_bytes_less_transitive(a.skip(1), b.skip(1), c.skip(1));
    }
}

/// In a sorted run of fields an earlier one stands before a later one.
pub proof fn lemma_sorted_names_ordered(fields: Seq<(Seq<char>, ShapeView)>, i: int, j: int)
    requires
        sorted_names(fields),
        0 <= i < j < fields.len(),
    ensures
        name_less(fields[i].0, fields[j].0),
    decreases j - i,
{
    assert(in_order(fields, j - 1));
    if i < j - 1 {
        lemma_sorted_names_ordered(fields, i, j - 1);
        lemma_bytes_less_transitive(
            encode_utf8(fields[i].0),
            encode_utf8(fields[j - 1].0),
            encode_utf8(fields[j].0),
        );
    }
}

/// **Sorted names differ.** Fields that are declared sorted have no name
/// twice.
pub proof fn lemma_sorted_names_distinct(fields: Seq<(Seq<char>, ShapeView)>)
    requires
        sorted_names(fields),
    ensures
        distinct_names(fields),
{
    assert forall|i: int, j: int| 0 <= i < j < fields.len() implies (#[trigger] fields[i]).0 != (
    #[trigger] fields[j]).0 by {
        lemma_sorted_names_ordered(fields, i, j);
        lemma_bytes_less_irreflexive(encode_utf8(fields[i].0));
    }
}

/// Whether `a` stands before `b` in the order of byte strings.
pub fn less(a: &[u8], b: &[u8]) -> (r: bool)
    ensures
        r == bytes_less(a@, b@),
{
    let mut i: usize = 0;
    assert(a@.skip(0) =~= a@ && b@.skip(0) =~= b@);
    while i < a.len() && i < b.len()
        invariant
            i <= a.len(),
            i <= b.len(),
            bytes_less(a@, b@) == bytes_less(a@.skip(i as int), b@.skip(i as int)),
        decreases a.len() - i,
    {
        if a[i] != b[i] {
            return a[i] < b[i];
        }
        assert(a@.skip(i as int).skip(1) =~= a@.skip(i + 1));
        assert(b@.skip(i as int).skip(1) =~= b@.skip(i + 1));
        i = i + 1;
    }
    i < b.len()
}

/// Whether each field stands before the next.
pub fn has_sorted_names(fields: &Vec<(String, Shape)>) -> (r: bool)
    ensures
        r == sorted_names(field_shapes_view(fields@)),
{
    let ghost views = field_shapes_view(fields@);
    let mut i: usize = 1;
    while i < fields.len()
        invariant
            1 <= i,
            views == field_shapes_view(fields@),
            forall|k: int| 0 <= k < i - 1 ==> #[trigger] in_order(views, k),
        decreases fields.len() - i,
    {
        assert(views[i - 1].0 == fields@[i - 1].0@);
        assert(views[i as int].0 == fields@[i as int].0@);
        if !less(fields[i - 1].0.as_str().as_bytes(), fields[i].0.as_str().as_bytes()) {
            assert(!in_order(views, i - 1));
            return false;
        }
        i = i + 1;
    }
    true
}

impl Shape {
    /// Whether every record of the shape, however deep, declares its fields
    /// sorted by name, as canonical dictionaries hold their keys.
    pub fn is_sorted(&self) -> (r: bool)
        ensures
            r == sorted_shape(self@),
        decreases self,
    {
        match self {
            Shape::Optional(inner) => inner.is_sorted(),
            Shape::List(element) => element.is_sorted(),
            Shape::Tuple(shapes) => {
                let ghost views = self@->Tuple_0;
                let mut i: usize = 0;
                while i < shapes.len()
                    invariant
                        i <= shapes.len(),
                        self@ == ShapeView::Tuple(views),
                        views.len() == shapes.len(),
                        forall|k: int| 0 <= k < shapes.len() ==> views[k] == shapes@[k]@,
                        forall|k: int| 0 <= k < shapes.len() ==> decreases_to!(self => shapes@[k]),
                        forall|k: int| 0 <= k < i ==> sorted_shape(#[trigger] views[k]),
                    decreases shapes.len() - i,
                {
                    if !shapes[i].is_sorted() {
                        assert(!sorted_shape(views[i as int]));
                        assert(sorted_shape(self@) ==> sorted_shape(self@->Tuple_0[i as int]));
                        return false;
                    }
                    i = i + 1;
                }
                true
            },
            Shape::Dict(key, value) => key.is_sorted() && value.is_sorted(),
            Shape::Record(fields) => {
                let ghost views = self@->Record_0;
                assert(views =~= field_shapes_view(fields@));
                if !has_sorted_names(fields) {
                    return false;
                }
                let mut i: usize = 0;
                while i < fields.len()
                    invariant
                        i <= fields.len(),
                        self@ == ShapeView::Record(views),
                        sorted_names(views),
                        views.len() == fields.len(),
                        forall|k: int| 0 <= k < fields.len() ==> views[k].1 == fields@[k].1@,
                        forall|k: int| 0 <= k < fields.len() ==> decreases_to!(self => fields@[k]),
                        forall|k: int| 0 <= k < i ==> sorted_shape((#[trigger] views[k]).1),
                    decreases fields.len() - i,
                {
                    if !fields[i].1.is_sorted() {
                        assert(!sorted_shape(views[i as int].1));
                        return false;
                    }
                    i = i + 1;
                }
                true
            },
            Shape::Enum(variants) => {
                let ghost views = self@->Enum_0;
                assert(views =~= variants_view(variants@));
                let mut i: usize = 0;
                while i < variants.len()
                    invariant
                        i <= variants.len(),
                        self@ == ShapeView::Enum(views),
                        views.len() == variants.len(),
                        forall|k: int|
                            0 <= k < variants.len() ==> views[k].1 == payload_view(
                                variants@[k].1,
                            ),
                        forall|k: int|
                            0 <= k < variants.len() ==> decreases_to!(self => variants@[k]),
                        forall|k: int|
                            0 <= k < i ==> ((#[trigger] views[k]).1 matches Some(p)
                                ==> sorted_shape(p)),
                    decreases variants.len() - i,
                {
                    match &variants[i].1 {
                        Some(payload) => {
                            if !payload.is_sorted() {
                                assert(views[i as int].1 == Some(payload@));
                                return false;
                            }
                        },
                        None => {},
                    }
                    i = i + 1;
                }
                true
            },
            _ => true,
        }
    }
}

} // verus!
