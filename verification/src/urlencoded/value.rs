//! The values of a query string, and the escaping of text and bytes.

use crate::text::{
    ascii_chars, decimal, decimal_digits, lemma_ascii_utf8, lemma_decimal_digits,
    lemma_decimal_i64, push_char, push_decimal, push_decimal_digits, string_from_utf8,
};
use vstd::pervasive::unreached;
use vstd::prelude::*;
use vstd::string::StringExecFns;
use vstd::utf8::encode_utf8;

verus! {

/// A value of a query string. A text is held escaped, as it will be written.
#[derive(Debug, PartialEq)]
pub enum Value {
    Text(String),
    List(Vec<Value>),
    Named(String, Box<Value>),
    Empty,
}

/// The mathematical model of a [`Value`].
pub enum ValueView {
    Text(Seq<char>),
    List(Seq<ValueView>),
    Named(Seq<char>, Box<ValueView>),
    Empty,
}

pub open spec fn value_view(v: Value) -> ValueView
    decreases v,
{
    match v {
        Value::Text(s) => ValueView::Text(s@),
        Value::List(items) => ValueView::List(
            Seq::new(
                items@.len(),
                |i: int|
                    if 0 <= i < items@.len() {
                        value_view(items@[i])
                    } else {
                        ValueView::Empty
                    },
            ),
        ),
        Value::Named(name, inner) => ValueView::Named(name@, Box::new(value_view(*inner))),
        Value::Empty => ValueView::Empty,
    }
}

impl View for Value {
    type V = ValueView;

    open spec fn view(&self) -> ValueView {
        value_view(*self)
    }
}

/// The views of the values, in their order.
pub open spec fn values_view(values: Seq<Value>) -> Seq<ValueView> {
    Seq::new(values.len(), |i: int| values[i]@)
}

/// The value as it is written: a text as it stands, a list as its items
/// between square brackets, a named value as `name=value`, and nothing for
/// the empty value.
pub open spec fn render(v: ValueView) -> Seq<char>
    decreases v,
{
    match v {
        ValueView::Text(s) => s,
        ValueView::List(items) => seq!['['] + render_all(items) + seq![']'],
        ValueView::Named(name, inner) => name + seq!['='] + render(*inner),
        ValueView::Empty => Seq::empty(),
    }
}

/// The items as they are written, one after the other.
pub open spec fn render_all(items: Seq<ValueView>) -> Seq<char>
    decreases items,
{
    if items.len() == 0 {
        Seq::empty()
    } else {
        render_all(items.drop_last()) + render(items.last())
    }
}

/// The hexadecimal digit of a number below 16, in upper case.
pub open spec fn hex_digit(n: int) -> char {
    if n < 10 {
        (0x30 + n) as char
    } else {
        (0x41 + n - 10) as char
    }
}

/// A byte in its escaped form: `%` and two hexadecimal digits.
pub open spec fn percent_byte(b: u8) -> Seq<char> {
    seq!['%', hex_digit(b as int / 16), hex_digit(b as int % 16)]
}

/// The byte is a letter, a digit, `-`, `_`, `.` or `~` of ASCII.
pub open spec fn is_unreserved(b: u8) -> bool {
    ||| 0x61 <= b <= 0x7a
    ||| 0x41 <= b <= 0x5a
    ||| 0x30 <= b <= 0x39
    ||| b == 0x2d
    ||| b == 0x5f
    ||| b == 0x2e
    ||| b == 0x7e
}

/// One byte as it is written: itself where `keep` lets unreserved bytes
/// stand and it is one, escaped otherwise.
pub open spec fn escaped_byte(b: u8, keep: bool) -> Seq<char> {
    if keep && is_unreserved(b) {
        seq![b as char]
    } else {
        percent_byte(b)
    }
}

/// The bytes as they are written, one after the other.
pub open spec fn escaped(bytes: Seq<u8>, keep: bool) -> Seq<char>
    decreases bytes.len(),
{
    if bytes.len() == 0 {
        Seq::empty()
    } else {
        escaped(bytes.drop_last(), keep) + escaped_byte(bytes.last(), keep)
    }
}

/// The character may stand in a query string as it is: an unreserved
/// character, or the `%` of an escape.
pub open spec fn is_query_safe(c: char) -> bool {
    c == '%' || (c as int <= 0x7e && is_unreserved(c as u8))
}

/// **Escaped text is safe.** Whatever the bytes, what they are written as
/// holds only unreserved characters and escapes.
pub proof fn lemma_escaped_is_safe(bytes: Seq<u8>, keep: bool)
    ensures
        forall|i: int|
            0 <= i < escaped(bytes, keep).len() ==> is_query_safe(
                #[trigger] escaped(bytes, keep)[i],
            ),
    decreases bytes.len(),
{
    if bytes.len() > 0 {
        let front = escaped(bytes.drop_last(), keep);
        let last = escaped_byte(bytes.last(), keep);
        lemma_escaped_is_safe(bytes.drop_last(), keep);
        assert forall|i: int| 0 <= i < last.len() implies is_query_safe(#[trigger] last[i]) by {
            let b = bytes.last();
            if keep && is_unreserved(b) {
                assert(last[i] == b as char);
            } else {
                let high = b as int / 16;
                let low = b as int % 16;
                assert(is_query_safe(hex_digit(high)));
                assert(is_query_safe(hex_digit(low)));
            }
        }
        assert forall|i: int| 0 <= i < escaped(bytes, keep).len() implies is_query_safe(
            #[trigger] escaped(bytes, keep)[i],
        ) by {
            if i < front.len() {
                assert(escaped(bytes, keep)[i] == front[i]);
            } else {
                assert(escaped(bytes, keep)[i] == last[i - front.len()]);
            }
        }
    }
}

/// The hexadecimal digit of a number below 16.
fn hex_char(n: u8) -> (c: char)
    requires
        n < 16,
    ensures
        c == hex_digit(n as int),
{
    if n < 10 {
        (0x30 + n) as char
    } else {
        (0x41 + n - 10) as char
    }
}

/// Appends the bytes to `out` as they are written.
fn push_escaped(out: &mut String, bytes: &[u8], keep: bool)
    ensures
        final(out)@ == old(out)@ + escaped(bytes@, keep),
{
    let mut i: usize = 0;
    assert(bytes@.take(0) =~= Seq::<u8>::empty());
    while i < bytes.len()
        invariant
            i <= bytes.len(),
            out@ == old(out)@ + escaped(bytes@.take(i as int), keep),
        decreases bytes.len() - i,
    {
        let b = bytes[i];
        let ghost before = out@;
        let unreserved = (0x61 <= b && b <= 0x7a) || (0x41 <= b && b <= 0x5a) || (0x30 <= b && b
            <= 0x39) || b == 0x2d || b == 0x5f || b == 0x2e || b == 0x7e;
        if keep && unreserved {
            push_char(out, b as char);
            assert(out@ =~= before + escaped_byte(b, keep));
        } else {
            push_char(out, '%');
            push_char(out, hex_char(b / 16));
            push_char(out, hex_char(b % 16));
            assert(out@ =~= before + escaped_byte(b, keep));
        }
        proof {
            let next = bytes@.take(i + 1);
            assert(next.drop_last() =~= bytes@.take(i as int));
            assert(next.last() == b);
        }
        i = i + 1;
    }
    assert(bytes@.take(i as int) =~= bytes@);
}

/// Escapes a text: the unreserved characters stand, and every other byte of
/// the UTF-8 encoding is written as `%` and two hexadecimal digits.
pub fn encode_chars(chars: &str) -> (r: String)
    ensures
        r@ == escaped(encode_utf8(chars@), true),
{
    let mut out = String::new();
    push_escaped(&mut out, chars.as_bytes(), true);
    assert(out@ =~= escaped(encode_utf8(chars@), true));
    out
}

/// Escapes bytes: every one is written as `%` and two hexadecimal digits.
pub fn encode_bytes(bytes: &[u8]) -> (r: String)
    ensures
        r@ == escaped(bytes@, false),
{
    let mut out = String::new();
    push_escaped(&mut out, bytes, false);
    assert(out@ =~= escaped(bytes@, false));
    out
}

/// The decimal numeral of a signed integer, as text.
pub fn signed_text(v: i64) -> (r: String)
    ensures
        r@ == ascii_chars(decimal(v as int)),
{
    let mut bytes: Vec<u8> = Vec::new();
    push_decimal(&mut bytes, v);
    proof {
        assert(bytes@ =~= decimal(v as int));
        lemma_decimal_i64(v);
        lemma_ascii_utf8(bytes@);
    }
    match string_from_utf8(bytes) {
        Ok(text) => text,
        // The digits and the sign are ASCII, and so well-formed UTF-8.
        Err(_) => unreached(),
    }
}

/// The decimal numeral of an unsigned integer, as text.
pub fn unsigned_text(v: u64) -> (r: String)
    ensures
        r@ == ascii_chars(decimal_digits(v as nat)),
{
    let mut bytes: Vec<u8> = Vec::new();
    push_decimal_digits(&mut bytes, v);
    proof {
        assert(bytes@ =~= decimal_digits(v as nat));
        lemma_decimal_digits(v as nat);
        lemma_ascii_utf8(bytes@);
    }
    match string_from_utf8(bytes) {
        Ok(text) => text,
        // The digits and the sign are ASCII, and so well-formed UTF-8.
        Err(_) => unreached(),
    }
}

/// Appending one more item appends what it is written as.
pub proof fn lemma_render_all_push(items: Seq<ValueView>, last: ValueView)
    ensures
        render_all(items.push(last)) == render_all(items) + render(last),
{
    assert(items.push(last).drop_last() =~= items);
}

impl Value {
    /// A text, escaped.
    pub fn from_text(s: &str) -> (v: Value)
        ensures
            v@ == ValueView::Text(escaped(encode_utf8(s@), true)),
    {
        Value::Text(encode_chars(s))
    }

    /// `true` or `false`.
    pub fn from_bool(b: bool) -> (v: Value)
        ensures
            v@ == ValueView::Text(
                if b {
                    "true"@
                } else {
                    "false"@
                },
            ),
    {
        Value::Text(
            if b {
                String::from_str("true")
            } else {
                String::from_str("false")
            },
        )
    }

    /// The decimal numeral of a signed integer.
    pub fn from_i64(i: i64) -> (v: Value)
        ensures
            v@ == ValueView::Text(ascii_chars(decimal(i as int))),
    {
        Value::Text(signed_text(i))
    }

    /// The decimal numeral of an unsigned integer.
    pub fn from_u64(i: u64) -> (v: Value)
        ensures
            v@ == ValueView::Text(ascii_chars(decimal_digits(i as nat))),
    {
        Value::Text(unsigned_text(i))
    }

    /// A character, escaped.
    pub fn from_char(c: char) -> (v: Value)
        ensures
            v@ == ValueView::Text(escaped(encode_utf8(seq![c]), true)),
    {
        let mut text = String::new();
        push_char(&mut text, c);
        assert(text@ =~= seq![c]);
        Value::Text(encode_chars(text.as_str()))
    }

    /// Bytes, every one escaped.
    pub fn from_bytes(b: &[u8]) -> (v: Value)
        ensures
            v@ == ValueView::Text(escaped(b@, false)),
    {
        Value::Text(encode_bytes(b))
    }

    /// A list of values.
    pub fn from_list(l: Vec<Value>) -> (v: Value)
        ensures
            v@ == ValueView::List(values_view(l@)),
    {
        let ghost views = values_view(l@);
        let v = Value::List(l);
        assert(v@->List_0 =~= views);
        v
    }

    /// Appends the value to `out` as it is written.
    fn write_to(&self, out: &mut String)
        ensures
            final(out)@ == old(out)@ + render(self@),
        decreases self,
    {
        match self {
            Value::Text(s) => {
                out.append(s.as_str());
            },
            Value::List(items) => {
                let ghost views = self@->List_0;
                push_char(out, '[');
                let mut i: usize = 0;
                assert(views.take(0) =~= Seq::<ValueView>::empty());
                while i < items.len()
                    invariant
                        i <= items.len(),
                        views.len() == items.len(),
                        forall|k: int| 0 <= k < items.len() ==> views[k] == items@[k]@,
                        forall|k: int| 0 <= k < items.len() ==> decreases_to!(self => items@[k]),
                        out@ == old(out)@ + seq!['['] + render_all(views.take(i as int)),
                    decreases items.len() - i,
                {
                    let ghost before = out@;
                    items[i].write_to(out);
                    proof {
                        lemma_render_all_push(views.take(i as int), views[i as int]);
                        assert(views.take(i as int).push(views[i as int]) =~= views.take(i + 1));
                        assert(out@ =~= old(out)@ + seq!['['] + render_all(views.take(i + 1)));
                    }
                    i = i + 1;
                }
                assert(views.take(i as int) =~= views);
                push_char(out, ']');
                assert(out@ =~= old(out)@ + render(self@));
            },
            Value::Named(name, inner) => {
                out.append(name.as_str());
                push_char(out, '=');
                inner.write_to(out);
                assert(out@ =~= old(out)@ + render(self@));
            },
            Value::Empty => {
                assert(out@ =~= old(out)@ + render(self@));
            },
        }
    }

    /// The value as it is written.
    pub fn to_string(&self) -> (r: String)
        ensures
            r@ == render(self@),
    {
        let mut out = String::new();
        self.write_to(&mut out);
        assert(out@ =~= render(self@));
        out
    }
}

} // verus!
