//! The byte-stream reader: a cursor over the input with a one-byte lookahead,
//! reads of an exact length and reads up to a delimiter.

use crate::bencode::error::{outcome, outcome_view, unexpected_eof, Error, ErrorView, Result};
use crate::bencode::tokens::{token_of, Token, TOKEN_DELIM, TOKEN_END};
use crate::text::{
    decimal, decimal_digits, decimal_i64, decimal_u64, parse_i64, parse_u64, push_decimal,
    push_decimal_digits, same_bytes, string_from_utf8,
};
use vstd::prelude::*;
use vstd::slice::{slice_subrange, slice_to_vec};
use vstd::utf8::{decode_utf8, decode_utf8_encode_utf8, valid_utf8};

verus! {

/// The first position of `s` that holds `b`, or the length of `s` if none does.
pub open spec fn first_index(s: Seq<u8>, b: u8) -> int
    decreases s.len(),
{
    if s.len() == 0 || s[0] == b {
        0
    } else {
        1 + first_index(s.skip(1), b)
    }
}

/// `first_index` is in range, nothing before it is `b`, and it holds `b`
/// unless it is the length.
pub proof fn lemma_first_index(s: Seq<u8>, b: u8)
    ensures
        0 <= first_index(s, b) <= s.len(),
        forall|j: int| 0 <= j < first_index(s, b) ==> s[j] != b,
        first_index(s, b) < s.len() ==> s[first_index(s, b)] == b,
    decreases s.len(),
{
    if s.len() == 0 || s[0] == b {
    } else {
        let t = s.skip(1);
        lemma_first_index(t, b);
        assert forall|j: int| 0 <= j < first_index(s, b) implies s[j] != b by {
            if j > 0 {
                assert(s[j] == t[j - 1]);
            }
        }
    }
}

/// A position with no `b` before it, and `b` at it unless it is the length,
/// is the first index.
pub proof fn lemma_first_index_is(s: Seq<u8>, b: u8, i: int)
    requires
        0 <= i <= s.len(),
        forall|j: int| 0 <= j < i ==> s[j] != b,
        i < s.len() ==> s[i] == b,
    ensures
        first_index(s, b) == i,
    decreases s.len(),
{
    if s.len() == 0 || s[0] == b {
    } else {
        let t = s.skip(1);
        assert forall|j: int| 0 <= j < i - 1 implies t[j] != b by {
            assert(t[j] == s[j + 1]);
        }
        lemma_first_index_is(t, b, i - 1);
    }
}

/// What `peek_byte` answers on the unread bytes `s`.
pub open spec fn spec_peek_byte(s: Seq<u8>) -> std::result::Result<u8, ErrorView> {
    if s.len() == 0 {
        Err(ErrorView::EOF)
    } else {
        Ok(s[0])
    }
}

/// What `peek_token` answers on the unread bytes `s`.
pub open spec fn spec_peek_token(s: Seq<u8>) -> std::result::Result<Token, ErrorView> {
    if s.len() == 0 {
        Err(ErrorView::EOF)
    } else {
        match token_of(s[0]) {
            Some(t) => Ok(t),
            None => Err(ErrorView::Syntax(crate::bencode::tokens::unrecognized_token(s[0]))),
        }
    }
}

/// The unread bytes after one byte was consumed; nothing changes at the end
/// of the input.
pub open spec fn spec_advance(s: Seq<u8>) -> Seq<u8> {
    if s.len() == 0 {
        s
    } else {
        s.skip(1)
    }
}

/// A read up to the first `delim`: the bytes before it, and what is unread
/// after it. Without a `delim` the whole input is consumed and the read fails
/// with `missing`.
pub open spec fn spec_read_until(s: Seq<u8>, delim: u8, missing: ErrorView) -> (
    std::result::Result<Seq<u8>, ErrorView>,
    Seq<u8>,
) {
    let i = first_index(s, delim);
    if i < s.len() {
        (Ok(s.take(i)), s.skip(i + 1))
    } else {
        (Err(missing), Seq::empty())
    }
}

/// A read of exactly `n` bytes. With fewer than `n` bytes unread it fails and
/// consumes nothing.
pub open spec fn spec_read_of_size(s: Seq<u8>, n: nat) -> (
    std::result::Result<Seq<u8>, ErrorView>,
    Seq<u8>,
) {
    if n <= s.len() {
        (Ok(s.take(n as int)), s.skip(n as int))
    } else {
        (Err(ErrorView::IO), s)
    }
}

/// The complaint about an integer that is written otherwise than its
/// canonical numeral: with a `+`, with a leading zero, or as `-0`.
pub open spec fn non_canonical_integer() -> ErrorView {
    ErrorView::Syntax("Integer is not in canonical form"@)
}

/// The complaint about a length that is written with a `+` or with a
/// leading zero.
pub open spec fn non_canonical_length() -> ErrorView {
    ErrorView::Syntax("Length is not in canonical form"@)
}

/// A read of a decimal integer that ends at the first `e`. The digits have
/// to be the canonical numeral of the integer: an optional `-`, no leading
/// zero but for the number 0, and no `-0`.
pub open spec fn spec_read_i64(s: Seq<u8>) -> (std::result::Result<i64, ErrorView>, Seq<u8>) {
    match spec_read_until(s, TOKEN_END, ErrorView::ExpectedEnd) {
        (Err(e), rest) => (Err(e), rest),
        (Ok(text), rest) => if !valid_utf8(text) {
            (Err(ErrorView::UTF8), rest)
        } else {
            match decimal_i64(decode_utf8(text)) {
                Some(v) => if text == decimal(v as int) {
                    (Ok(v), rest)
                } else {
                    (Err(non_canonical_integer()), rest)
                },
                None => (Err(ErrorView::ParseInt), rest),
            }
        },
    }
}

/// A read of a byte string: a decimal length, `:`, and that many bytes. The
/// length has to be written without a sign and without a leading zero.
pub open spec fn spec_read_bytes(s: Seq<u8>) -> (
    std::result::Result<Seq<u8>, ErrorView>,
    Seq<u8>,
) {
    match spec_read_until(s, TOKEN_DELIM, ErrorView::ExpectedDelimiter) {
        (Err(e), rest) => (Err(e), rest),
        (Ok(text), rest) => if !valid_utf8(text) {
            (Err(ErrorView::UTF8), rest)
        } else {
            match decimal_u64(decode_utf8(text)) {
                Some(n) => if text == decimal_digits(n as nat) {
                    spec_read_of_size(rest, n as nat)
                } else {
                    (Err(non_canonical_length()), rest)
                },
                None => (Err(ErrorView::ParseInt), rest),
            }
        },
    }
}

/// A read of a byte string that has to be well-formed UTF-8.
pub open spec fn spec_read_string(s: Seq<u8>) -> (
    std::result::Result<Seq<char>, ErrorView>,
    Seq<u8>,
) {
    match spec_read_bytes(s) {
        (Err(e), rest) => (Err(e), rest),
        (Ok(bytes), rest) => if valid_utf8(bytes) {
            (Ok(decode_utf8(bytes)), rest)
        } else {
            (Err(ErrorView::UTF8), rest)
        },
    }
}

/// A read up to a delimiter leaves less than there was when it succeeds, and
/// never more.
pub proof fn lemma_read_until_shrinks(s: Seq<u8>, delim: u8, missing: ErrorView)
    ensures
        spec_read_until(s, delim, missing).1.len() <= s.len(),
        spec_read_until(s, delim, missing).0 is Ok ==> spec_read_until(s, delim, missing).1.len()
            < s.len(),
{
    lemma_first_index(s, delim);
}

/// A read of an integer leaves less than there was when it succeeds, and
/// never more.
pub proof fn lemma_read_i64_shrinks(s: Seq<u8>)
    ensures
        spec_read_i64(s).1.len() <= s.len(),
        spec_read_i64(s).0 is Ok ==> spec_read_i64(s).1.len() < s.len(),
{
    lemma_read_until_shrinks(s, TOKEN_END, ErrorView::ExpectedEnd);
}

/// A read of a byte string leaves less than there was when it succeeds, and
/// never more.
pub proof fn lemma_read_bytes_shrinks(s: Seq<u8>)
    ensures
        spec_read_bytes(s).1.len() <= s.len(),
        spec_read_bytes(s).0 is Ok ==> spec_read_bytes(s).1.len() < s.len(),
        spec_read_string(s).1.len() <= s.len(),
        spec_read_string(s).0 is Ok ==> spec_read_string(s).1.len() < s.len(),
{
    lemma_read_until_shrinks(s, TOKEN_DELIM, ErrorView::ExpectedDelimiter);
}

/// How a read ends that the grammar expects to end as `expected`, an
/// outcome and what is unread after it. Over a reliable source it ends so.
/// Over any other it may also fail with an I/O error, and then nothing is
/// known of what is unread.
pub open spec fn reads_as<T>(
    reliable: bool,
    expected: (std::result::Result<T, ErrorView>, Seq<u8>),
    got: (std::result::Result<T, ErrorView>, Seq<u8>),
) -> bool {
    got == expected || (!reliable && got.0 == Err::<T, ErrorView>(ErrorView::IO))
}

/// A source of bytes with a cursor. `unread` is what lies after the cursor;
/// every method says what it returns and what is unread afterwards, for a
/// source that is reliable and for one that may fail.
pub trait BencodeReader {
    /// The bytes that have not been consumed.
    spec fn unread(&self) -> Seq<u8>;

    /// Whether the source delivers its bytes without fail.
    spec fn reliable(&self) -> bool;

    /// The next unread byte, which stays unread.
    fn peek_byte(&mut self) -> (r: Result<u8>)
        ensures
            final(self).reliable() == old(self).reliable(),
            reads_as(
                old(self).reliable(),
                (spec_peek_byte(old(self).unread()), old(self).unread()),
                (outcome(r), final(self).unread()),
            ),
    ;

    /// Classifies the next unread byte and leaves it unread.
    fn peek_token(&mut self) -> (r: Result<Token>)
        ensures
            final(self).reliable() == old(self).reliable(),
            reads_as(
                old(self).reliable(),
                (spec_peek_token(old(self).unread()), old(self).unread()),
                (outcome(r), final(self).unread()),
            ),
    ;

    /// Moves the cursor over one byte.
    fn consume_current_token(&mut self) -> (r: Result<()>)
        ensures
            final(self).reliable() == old(self).reliable(),
            reads_as(
                old(self).reliable(),
                (Ok(()), spec_advance(old(self).unread())),
                (outcome(r), final(self).unread()),
            ),
    ;

    /// Whether a byte is left to read.
    fn has_tokens_left(&mut self) -> (r: Result<bool>)
        ensures
            final(self).reliable() == old(self).reliable(),
            reads_as(
                old(self).reliable(),
                (Ok(old(self).unread().len() > 0), old(self).unread()),
                (outcome(r), final(self).unread()),
            ),
    ;

    /// Reads up to the next `:` and returns the bytes before it.
    fn read_until_delim(&mut self) -> (r: Result<Vec<u8>>)
        ensures
            final(self).reliable() == old(self).reliable(),
            reads_as(
                old(self).reliable(),
                spec_read_until(old(self).unread(), TOKEN_DELIM, ErrorView::ExpectedDelimiter),
                (outcome_view(r), final(self).unread()),
            ),
    ;

    /// Reads up to the next `e` and returns the bytes before it.
    fn read_until_end(&mut self) -> (r: Result<Vec<u8>>)
        ensures
            final(self).reliable() == old(self).reliable(),
            reads_as(
                old(self).reliable(),
                spec_read_until(old(self).unread(), TOKEN_END, ErrorView::ExpectedEnd),
                (outcome_view(r), final(self).unread()),
            ),
    ;

    /// Reads exactly `size` bytes.
    fn read_of_size(&mut self, size: usize) -> (r: Result<Vec<u8>>)
        ensures
            final(self).reliable() == old(self).reliable(),
            reads_as(
                old(self).reliable(),
                spec_read_of_size(old(self).unread(), size as nat),
                (outcome_view(r), final(self).unread()),
            ),
    ;

    /// Reads the digits of an integer and its closing `e`.
    fn read_i64(&mut self) -> (r: Result<i64>)
        ensures
            final(self).reliable() == old(self).reliable(),
            reads_as(
                old(self).reliable(),
                spec_read_i64(old(self).unread()),
                (outcome(r), final(self).unread()),
            ),
    ;

    /// Reads a byte string with its length prefix.
    fn read_bytes(&mut self) -> (r: Result<Vec<u8>>)
        ensures
            final(self).reliable() == old(self).reliable(),
            reads_as(
                old(self).reliable(),
                spec_read_bytes(old(self).unread()),
                (outcome_view(r), final(self).unread()),
            ),
    ;

    /// Reads a byte string with its length prefix, as text.
    fn read_string(&mut self) -> (r: Result<String>)
        ensures
            final(self).reliable() == old(self).reliable(),
            reads_as(
                old(self).reliable(),
                spec_read_string(old(self).unread()),
                (outcome_view(r), final(self).unread()),
            ),
    ;

    /// A copy of everything unread; the cursor stays.
    fn read(&mut self) -> (r: Result<Vec<u8>>)
        ensures
            final(self).reliable() == old(self).reliable(),
            reads_as(
                old(self).reliable(),
                (Ok(old(self).unread()), old(self).unread()),
                (outcome_view(r), final(self).unread()),
            ),
    ;
}

/// A reader over a slice of bytes held in memory.
pub struct Cursor<'a> {
    data: &'a [u8],
    pos: usize,
}

impl<'a> Cursor<'a> {
    #[verifier::type_invariant]
    spec fn in_range(self) -> bool {
        self.pos <= self.data@.len()
    }

    /// A cursor at the start of `data`.
    pub fn new(data: &'a [u8]) -> (c: Self)
        ensures
            c.input() == data@,
            c.unread() == data@,
    {
        Cursor { data, pos: 0 }
    }

    /// The unread bytes, as `fill_buf` of a buffered source would show them.
    pub fn remaining(&self) -> (r: &[u8])
        ensures
            r@ == self.unread(),
    {
        proof {
            use_type_invariant(self);
        }
        slice_subrange(self.data, self.pos, self.data.len())
    }

    /// How many bytes have been consumed.
    pub fn position(&self) -> (p: usize)
        ensures
            p + self.unread().len() == self.input().len(),
            self.unread() == self.input().skip(p as int),
    {
        proof {
            use_type_invariant(self);
        }
        self.pos
    }

    /// The whole input, consumed or not.
    pub closed spec fn input(&self) -> Seq<u8> {
        self.data@
    }

    /// Reads up to the first `delim`; see [`spec_read_until`]. `None` when
    /// there is no `delim`, and then everything is consumed.
    fn take_until(&mut self, delim: u8) -> (r: Option<Vec<u8>>)
        ensures
            first_index(old(self).unread(), delim) < old(self).unread().len() ==> {
                &&& r matches Some(v)
                &&& v@ == old(self).unread().take(first_index(old(self).unread(), delim))
                &&& final(self).unread() == old(self).unread().skip(
                    first_index(old(self).unread(), delim) + 1,
                )
            },
            first_index(old(self).unread(), delim) >= old(self).unread().len() ==> {
                &&& r is None
                &&& final(self).unread() == Seq::<u8>::empty()
            },
            final(self).input() == old(self).input(),
    {
        proof {
            use_type_invariant(&*self);
        }
        let start = self.pos;
        let len = self.data.len();
        let mut i = start;
        while i < len && self.data[i] != delim
            invariant
                start <= i <= len,
                len == self.data@.len(),
                self.pos == start,
                self.data == old(self).data,
                forall|j: int| start <= j < i ==> self.data@[j] != delim,
            decreases len - i,
        {
            i = i + 1;
        }
        let ghost unread = old(self).unread();
        proof {
            assert forall|j: int| 0 <= j < i - start implies unread[j] != delim by {
                assert(unread[j] == self.data@[start + j]);
            }
            lemma_first_index_is(unread, delim, i - start);
        }
        if i < len {
            let found = slice_to_vec(slice_subrange(self.data, start, i));
            self.pos = i + 1;
            assert(found@ =~= unread.take(i - start));
            assert(self.unread() =~= unread.skip(i - start + 1));
            Some(found)
        } else {
            self.pos = len;
            assert(self.unread() =~= Seq::<u8>::empty());
            None
        }
    }
}

/// A slice in memory is there as a whole: a read from it never fails but
/// for want of bytes.
impl<'a> BencodeReader for Cursor<'a> {
    closed spec fn unread(&self) -> Seq<u8> {
        self.data@.skip(self.pos as int)
    }

    open spec fn reliable(&self) -> bool {
        true
    }

    fn peek_byte(&mut self) -> (r: Result<u8>) {
        proof {
            use_type_invariant(&*self);
        }
        if self.pos >= self.data.len() {
            return Err(Error::EOF);
        }
        Ok(self.data[self.pos])
    }

    fn peek_token(&mut self) -> (r: Result<Token>) {
        Token::try_from(self.peek_byte()?)
    }

    fn consume_current_token(&mut self) -> (r: Result<()>) {
        proof {
            use_type_invariant(&*self);
        }
        if self.pos < self.data.len() {
            self.pos = self.pos + 1;
            assert(self.unread() =~= old(self).unread().skip(1));
        }
        Ok(())
    }

    fn has_tokens_left(&mut self) -> (r: Result<bool>) {
        proof {
            use_type_invariant(&*self);
        }
        Ok(self.pos < self.data.len())
    }

    fn read_until_delim(&mut self) -> (r: Result<Vec<u8>>) {
        match self.take_until(TOKEN_DELIM) {
            Some(found) => Ok(found),
            None => Err(Error::ExpectedDelimiter),
        }
    }

    fn read_until_end(&mut self) -> (r: Result<Vec<u8>>) {
        match self.take_until(TOKEN_END) {
            Some(found) => Ok(found),
            None => Err(Error::ExpectedEnd),
        }
    }

    fn read_of_size(&mut self, size: usize) -> (r: Result<Vec<u8>>) {
        proof {
            use_type_invariant(&*self);
        }
        if size > self.data.len() - self.pos {
            return Err(Error::from_io(unexpected_eof()));
        }
        let found = slice_to_vec(slice_subrange(self.data, self.pos, self.pos + size));
        assert(found@ =~= old(self).unread().take(size as int));
        self.pos = self.pos + size;
        assert(self.unread() =~= old(self).unread().skip(size as int));
        Ok(found)
    }

    fn read_i64(&mut self) -> (r: Result<i64>) {
        let text = match self.read_until_end() {
            Ok(text) => text,
            Err(e) => { return Err(e); },
        };
        let ghost digits = text@;
        let int_str = match string_from_utf8(text) {
            Ok(s) => s,
            Err(e) => { return Err(Error::from_utf8(e)); },
        };
        let value = match parse_i64(int_str.as_str()) {
            Ok(v) => v,
            Err(e) => { return Err(Error::from_parse_int(e)); },
        };
        let mut canonical: Vec<u8> = Vec::new();
        push_decimal(&mut canonical, value);
        proof {
            decode_utf8_encode_utf8(digits);
            assert(canonical@ =~= decimal(value as int));
        }
        if !same_bytes(int_str.as_str().as_bytes(), canonical.as_slice()) {
            return Err(Error::from_syntax("Integer is not in canonical form"));
        }
        Ok(value)
    }

    fn read_bytes(&mut self) -> (r: Result<Vec<u8>>) {
        let text = match self.read_until_delim() {
            Ok(text) => text,
            Err(e) => { return Err(e); },
        };
        let ghost digits = text@;
        let length_str = match string_from_utf8(text) {
            Ok(s) => s,
            Err(e) => { return Err(Error::from_utf8(e)); },
        };
        let length = match parse_u64(length_str.as_str()) {
            Ok(v) => v,
            Err(e) => { return Err(Error::from_parse_int(e)); },
        };
        let mut canonical: Vec<u8> = Vec::new();
        push_decimal_digits(&mut canonical, length);
        proof {
            decode_utf8_encode_utf8(digits);
            assert(canonical@ =~= decimal_digits(length as nat));
        }
        if !same_bytes(length_str.as_str().as_bytes(), canonical.as_slice()) {
            return Err(Error::from_syntax("Length is not in canonical form"));
        }
        if length > usize::MAX as u64 {
            let total = self.data.len();
            proof {
                use_type_invariant(&*self);
                assert(self.unread().len() <= total);
            }
            return Err(Error::from_io(unexpected_eof()));
        }
        self.read_of_size(length as usize)
    }

    fn read_string(&mut self) -> (r: Result<String>) {
        let bytes = match self.read_bytes() {
            Ok(bytes) => bytes,
            Err(e) => { return Err(e); },
        };
        match string_from_utf8(bytes) {
            Ok(s) => Ok(s),
            Err(e) => Err(Error::from_utf8(e)),
        }
    }

    fn read(&mut self) -> (r: Result<Vec<u8>>) {
        Ok(slice_to_vec(self.remaining()))
    }
}

} // verus!
