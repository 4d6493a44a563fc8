//! Text helpers: decimal numerals, and the calls into the standard
//! library's string functions that vstd does not specify, each with the
//! contract that the rest of the crate relies on.

use vstd::prelude::*;
use vstd::utf8::{
    decode_utf8, encode_utf8, encode_utf8_decode_utf8, encode_utf8_valid_utf8, is_ascii_chars,
    is_ascii_chars_encode_utf8, valid_utf8,
};

verus! {

/// `std::string::FromUtf8Error`, held as it comes: nothing is known of what
/// is in it.
#[verifier::external_type_specification]
#[verifier::external_body]
pub struct ExFromUtf8Error(std::string::FromUtf8Error);

/// `std::num::ParseIntError`, held as it comes: nothing is known of what is
/// in it.
#[verifier::external_type_specification]
#[verifier::external_body]
pub struct ExParseIntError(std::num::ParseIntError);

/// The value of a run of decimal digits, most significant digit first.
pub open spec fn digits_value(s: Seq<char>) -> int
    decreases s.len(),
{
    if s.len() == 0 {
        0
    } else {
        digits_value(s.drop_last()) * 10 + (s.last() as int - '0' as int)
    }
}

/// Every character is one of `'0'..='9'`.
pub open spec fn all_digits(s: Seq<char>) -> bool {
    forall|i: int| 0 <= i < s.len() ==> '0' <= #[trigger] s[i] <= '9'
}

/// The integer that a decimal numeral stands for: an optional sign, `+` or
/// (when `signed`) `-`, then one digit or more. `None` for any other text.
pub open spec fn decimal_value(s: Seq<char>, signed: bool) -> Option<int> {
    if s.len() > 0 && (s[0] == '+' || (signed && s[0] == '-')) {
        let digits = s.skip(1);
        if digits.len() > 0 && all_digits(digits) {
            Some(
                if s[0] == '-' {
                    -digits_value(digits)
                } else {
                    digits_value(digits)
                },
            )
        } else {
            None
        }
    } else if s.len() > 0 && all_digits(s) {
        Some(digits_value(s))
    } else {
        None
    }
}

/// The signed 64-bit integer that `s` is the decimal numeral of, if it is one.
pub open spec fn decimal_i64(s: Seq<char>) -> Option<i64> {
    match decimal_value(s, true) {
        Some(v) => if i64::MIN <= v <= i64::MAX {
            Some(v as i64)
        } else {
            None
        },
        None => None,
    }
}

/// The unsigned 64-bit integer that `s` is the decimal numeral of, if it is one.
pub open spec fn decimal_u64(s: Seq<char>) -> Option<u64> {
    match decimal_value(s, false) {
        Some(v) => if v <= u64::MAX {
            Some(v as u64)
        } else {
            None
        },
        None => None,
    }
}

/// The decimal digits of `n` as ASCII bytes, without leading zeros.
pub open spec fn decimal_digits(n: nat) -> Seq<u8>
    decreases n,
{
    if n < 10 {
        seq![(0x30 + n) as u8]
    } else {
        decimal_digits(n / 10).push((0x30 + n % 10) as u8)
    }
}

/// The decimal numeral of `v` as ASCII bytes: `-` before a negative number,
/// no sign otherwise.
pub open spec fn decimal(v: int) -> Seq<u8> {
    if v < 0 {
        seq![0x2du8] + decimal_digits((-v) as nat)
    } else {
        decimal_digits(v as nat)
    }
}

/// The characters that bytes of the ASCII range stand for.
pub open spec fn ascii_chars(bytes: Seq<u8>) -> Seq<char> {
    Seq::new(bytes.len(), |i: int| bytes[i] as char)
}

/// Bytes of the ASCII range are well-formed UTF-8, and decode to one
/// character each.
pub proof fn lemma_ascii_utf8(bytes: Seq<u8>)
    requires
        forall|i: int| 0 <= i < bytes.len() ==> bytes[i] < 128,
    ensures
        valid_utf8(bytes),
        decode_utf8(bytes) == ascii_chars(bytes),
{
    let chars = ascii_chars(bytes);
    assert(is_ascii_chars(chars)) by {
        assert forall|i: int| 0 <= i < chars.len() implies '\0' <= #[trigger] chars[i]
            <= '\u{7f}' by {
            assert(chars[i] == bytes[i] as char);
        }
    }
    is_ascii_chars_encode_utf8(chars);
    assert(encode_utf8(chars) =~= bytes) by {
        assert forall|i: int| 0 <= i < bytes.len() implies encode_utf8(chars)[i] == bytes[i] by {
            assert(chars[i] as u8 == encode_utf8(chars)[i]);
            assert(chars[i] == bytes[i] as char);
        }
    }
    encode_utf8_valid_utf8(chars);
    encode_utf8_decode_utf8(chars);
}

/// The digits of a number are digits, at least one, and their value is the
/// number.
pub proof fn lemma_decimal_digits(n: nat)
    ensures
        decimal_digits(n).len() >= 1,
        forall|i: int|
            0 <= i < decimal_digits(n).len() ==> 0x30 <= #[trigger] decimal_digits(n)[i] <= 0x39,
        all_digits(ascii_chars(decimal_digits(n))),
        digits_value(ascii_chars(decimal_digits(n))) == n,
    decreases n,
{
    let d = decimal_digits(n);
    let c = ascii_chars(d);
    if n < 10 {
        assert(d =~= seq![(0x30 + n) as u8]);
        assert(c.drop_last() =~= Seq::<char>::empty());
        assert(c.last() == ((0x30 + n) as u8) as char);
        assert(digits_value(c.drop_last()) == 0);
    } else {
        let front = decimal_digits(n / 10);
        let last = (0x30 + n % 10) as u8;
        lemma_decimal_digits(n / 10);
        assert(d == front.push(last));
        assert(c.drop_last() =~= ascii_chars(front));
        assert(c.last() == last as char);
        assert forall|i: int| 0 <= i < d.len() implies 0x30 <= #[trigger] d[i] <= 0x39 by {
            if i < front.len() {
                assert(d[i] == front[i]);
            }
        }
    }
    assert forall|i: int| 0 <= i < c.len() implies '0' <= #[trigger] c[i] <= '9' by {
        assert(c[i] == d[i] as char);
        assert(0x30 <= d[i] <= 0x39);
    }
}

/// **Canonical numerals.** The digits of a number begin with `0` only for
/// the number 0, whose numeral is the one digit; so no numeral has a leading
/// zero, and none is `-0`.
pub proof fn lemma_decimal_canonical(v: int)
    ensures
        v == 0 ==> decimal(v) == seq![0x30u8],
        v > 0 ==> decimal(v)[0] != 0x30,
        v < 0 ==> decimal(v)[0] == 0x2d && decimal(v)[1] != 0x30,
{
    if v > 0 {
        lemma_leading_digit(v as nat);
    } else if v < 0 {
        lemma_leading_digit((-v) as nat);
        lemma_decimal_digits((-v) as nat);
    }
}

/// The first digit of a number above 0 is not `0`.
proof fn lemma_leading_digit(n: nat)
    requires
        n > 0,
    ensures
        decimal_digits(n)[0] != 0x30,
    decreases n,
{
    if n >= 10 {
        lemma_leading_digit(n / 10);
        lemma_decimal_digits(n / 10);
    }
}

/// The numeral of a signed 64-bit integer is read back as that integer.
pub proof fn lemma_decimal_i64(v: i64)
    ensures
        decimal_i64(ascii_chars(decimal(v as int))) == Some(v),
        forall|i: int| 0 <= i < decimal(v as int).len() ==> #[trigger] decimal(v as int)[i] < 128,
        forall|i: int|
            0 <= i < decimal(v as int).len() ==> #[trigger] decimal(v as int)[i] == 0x2d || (0x30
                <= decimal(v as int)[i] <= 0x39),
        decimal(v as int).len() >= 1,
{
    let s = ascii_chars(decimal(v as int));
    if v < 0 {
        let m = (-v) as nat;
        lemma_decimal_digits(m);
        let d = decimal_digits(m);
        assert(decimal(v as int) == seq![0x2du8] + d);
        assert(s[0] == '-');
        assert(s.skip(1) =~= ascii_chars(d));
        assert forall|i: int| 0 <= i < decimal(v as int).len() implies #[trigger] decimal(
            v as int,
        )[i] == 0x2d || (0x30 <= decimal(v as int)[i] <= 0x39) by {
            if i > 0 {
                assert(decimal(v as int)[i] == d[i - 1]);
            }
        }
    } else {
        lemma_decimal_digits(v as nat);
        let d = decimal_digits(v as nat);
        assert(s[0] == d[0] as char);
        assert(0x30 <= d[0] <= 0x39);
    }
}

/// The numeral of an unsigned 64-bit integer is read back as that integer.
pub proof fn lemma_decimal_u64(n: u64)
    ensures
        decimal_u64(ascii_chars(decimal_digits(n as nat))) == Some(n),
{
    lemma_decimal_digits(n as nat);
    let d = decimal_digits(n as nat);
    let s = ascii_chars(d);
    assert(s[0] == d[0] as char);
    assert(0x30 <= d[0] <= 0x39);
}

/// Whether the two hold the same bytes.
pub fn same_bytes(a: &[u8], b: &[u8]) -> (r: bool)
    ensures
        r == (a@ == b@),
{
    if a.len() != b.len() {
        return false;
    }
    let mut i: usize = 0;
    while i < a.len()
        invariant
            i <= a.len(),
            a@.len() == b@.len(),
            forall|k: int| 0 <= k < i ==> a@[k] == b@[k],
        decreases a.len() - i,
    {
        if a[i] != b[i] {
            return false;
        }
        i = i + 1;
    }
    assert(a@ =~= b@);
    true
}

/// Appends the decimal digits of `n` to `out`.
pub fn push_decimal_digits(out: &mut Vec<u8>, n: u64)
    ensures
        final(out)@ == old(out)@ + decimal_digits(n as nat),
    decreases n,
{
    if n >= 10 {
        push_decimal_digits(out, n / 10);
    }
    out.push(0x30 + (n % 10) as u8);
    assert(out@ =~= old(out)@ + decimal_digits(n as nat));
}

/// Appends the decimal numeral of `v` to `out`.
pub fn push_decimal(out: &mut Vec<u8>, v: i64)
    ensures
        final(out)@ == old(out)@ + decimal(v as int),
{
    if v < 0 {
        out.push(0x2d);
        // The magnitude of the least value does not fit the signed type.
        let magnitude: u64 = if v == i64::MIN {
            0x8000_0000_0000_0000
        } else {
            (-v) as u64
        };
        push_decimal_digits(out, magnitude);
        assert(out@ =~= old(out)@ + decimal(v as int));
    } else {
        push_decimal_digits(out, v as u64);
    }
}

/// The text that `String::from_utf8_lossy` makes of bytes: the text that
/// they encode where they are well-formed UTF-8, and otherwise that text
/// with a replacement character for each ill-formed part.
pub uninterp spec fn utf8_lossy(bytes: Seq<u8>) -> Seq<char>;

/// `String::from_utf8_lossy`, as an owned text. Well-formed UTF-8 is
/// decoded as it stands.
#[verifier::external_body]
pub(crate) fn lossy_text(bytes: &[u8]) -> (r: String)
    ensures
        r@ == utf8_lossy(bytes@),
        valid_utf8(bytes@) ==> r@ == decode_utf8(bytes@),
{
    String::from_utf8_lossy(bytes).into_owned()
}

/// `String::push`: the character is appended to the text.
#[verifier::external_body]
pub(crate) fn push_char(s: &mut String, c: char)
    ensures
        final(s)@ == old(s)@.push(c),
{
    s.push(c)
}

/// `String::from_utf8`: succeeds exactly on well-formed UTF-8, and the text
/// is then the one that the bytes encode.
#[verifier::external_body]
pub(crate) fn string_from_utf8(bytes: Vec<u8>) -> (r: Result<String, std::string::FromUtf8Error>)
    ensures
        r is Ok <==> valid_utf8(bytes@),
        r matches Ok(s) ==> s@ == decode_utf8(bytes@),
{
    String::from_utf8(bytes)
}

/// `str::parse::<i64>`: an optional sign and decimal digits, in the range of
/// the type; anything else is an error.
#[verifier::external_body]
pub(crate) fn parse_i64(s: &str) -> (r: Result<i64, std::num::ParseIntError>)
    ensures
        r is Ok <==> decimal_i64(s@) is Some,
        r matches Ok(v) ==> decimal_i64(s@) == Some(v),
{
    s.parse::<i64>()
}

/// `str::parse::<u64>`: an optional `+` and decimal digits, in the range of
/// the type; anything else is an error.
#[verifier::external_body]
pub(crate) fn parse_u64(s: &str) -> (r: Result<u64, std::num::ParseIntError>)
    ensures
        r is Ok <==> decimal_u64(s@) is Some,
        r matches Ok(v) ==> decimal_u64(s@) == Some(v),
{
    s.parse::<u64>()
}

} // verus!
