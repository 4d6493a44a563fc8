//! A token-level decoder: it yields one node for each token of the input and
//! leaves the nesting to its caller.

use crate::bencode::error::{outcome, outcome_view, Error, ErrorView, Result};
use crate::bencode::grammar::Decoded;
use crate::bencode::reader::{
    reads_as, spec_peek_byte, spec_read_bytes, spec_read_i64, BencodeReader,
};
use crate::bencode::tokens::{
    unrecognized_token, DIGIT_NINE, DIGIT_ZERO, TOKEN_DICT, TOKEN_END, TOKEN_INTEGER, TOKEN_LIST,
};
use crate::text::push_char;
use vstd::prelude::*;
use vstd::string::StringExecFns;

verus! {

/// One token with what it carries: an integer and a byte string are whole
/// values, the other three only open or close one.
#[derive(Debug, Eq, PartialEq)]
pub enum BencodeNode {
    Int(i64),
    Bytes(Vec<u8>),
    List,
    Dict,
    End,
}

/// The mathematical model of a [`BencodeNode`].
pub enum NodeView {
    Int(i64),
    Bytes(Seq<u8>),
    List,
    Dict,
    End,
}

impl View for BencodeNode {
    type V = NodeView;

    open spec fn view(&self) -> NodeView {
        match self {
            BencodeNode::Int(v) => NodeView::Int(*v),
            BencodeNode::Bytes(b) => NodeView::Bytes(b@),
            BencodeNode::List => NodeView::List,
            BencodeNode::Dict => NodeView::Dict,
            BencodeNode::End => NodeView::End,
        }
    }
}

/// The complaint about a byte other than the one that had to stand next.
pub open spec fn expected_byte(expected: u8) -> Seq<char> {
    "Expected byte: "@.push(expected as char)
}

/// What `consume_byte` does on the unread bytes `s`.
pub open spec fn spec_consume_byte(s: Seq<u8>, expected: u8) -> Decoded<()> {
    if s.len() == 0 {
        (Err(ErrorView::EOF), s)
    } else if s[0] == expected {
        (Ok(()), s.skip(1))
    } else {
        (Err(ErrorView::Syntax(expected_byte(expected))), s)
    }
}

/// The node at the start of `s`: the byte `i`, `l`, `d` or `e` is consumed,
/// and after `i` the integer up to its `e`; a digit starts a byte string,
/// which is read whole. Any other byte is refused and stays unread.
pub open spec fn spec_parse(s: Seq<u8>) -> Decoded<NodeView> {
    if s.len() == 0 {
        (Err(ErrorView::EOF), s)
    } else if s[0] == TOKEN_INTEGER {
        match spec_read_i64(s.skip(1)) {
            (Ok(v), rest) => (Ok(NodeView::Int(v)), rest),
            (Err(e), rest) => (Err(e), rest),
        }
    } else if s[0] == TOKEN_LIST {
        (Ok(NodeView::List), s.skip(1))
    } else if s[0] == TOKEN_DICT {
        (Ok(NodeView::Dict), s.skip(1))
    } else if s[0] == TOKEN_END {
        (Ok(NodeView::End), s.skip(1))
    } else if DIGIT_ZERO <= s[0] <= DIGIT_NINE {
        match spec_read_bytes(s) {
            (Ok(b), rest) => (Ok(NodeView::Bytes(b)), rest),
            (Err(e), rest) => (Err(e), rest),
        }
    } else {
        (Err(ErrorView::Syntax(unrecognized_token(s[0]))), s)
    }
}

/// The view of what `try_consume_end_token` returns.
pub open spec fn optional_outcome<T>(r: Option<Result<T>>) -> Option<
    std::result::Result<T, ErrorView>,
> {
    match r {
        Some(r) => Some(outcome(r)),
        None => None,
    }
}

/// A decoder of single tokens over a reader that it holds.
pub struct Decoder<'a, R: BencodeReader> {
    pub reader: &'a mut R,
}

impl<'a, R: BencodeReader> Decoder<'a, R> {
    pub fn new(reader: &'a mut R) -> (d: Self)
        ensures
            *d.reader == *old(reader),
            *final(d.reader) == *final(reader),
    {
        Decoder { reader }
    }

    /// What a call does that is to read as `expected` says. Over a reliable
    /// reader that is its outcome and what it leaves unread; over another
    /// the call may also fail with an I/O error. Either way the reader is
    /// as reliable as it was.
    pub open spec fn yields<T>(
        before: Self,
        after: Self,
        got: std::result::Result<T, ErrorView>,
        expected: Decoded<T>,
    ) -> bool {
        &&& after.reader.reliable() == before.reader.reliable()
        &&& reads_as(before.reader.reliable(), expected, (got, after.reader.unread()))
    }

    /// What a call does that may have nothing to do: as `yields`, but the
    /// outcome is `None` where the call neither reads nor fails.
    pub open spec fn steps<T>(
        before: Self,
        after: Self,
        got: Option<std::result::Result<T, ErrorView>>,
        expected: (Option<std::result::Result<T, ErrorView>>, Seq<u8>),
    ) -> bool {
        ||| (got, after.reader.unread()) == expected
        ||| !before.reader.reliable() && got == Some(Err::<T, ErrorView>(ErrorView::IO))
    }

    /// The next unread byte, which stays unread.
    pub fn peek_byte(&mut self) -> (r: Result<u8>)
        ensures
            *final(final(self).reader) == *final(old(self).reader),
            Self::yields(
                *old(self),
                *final(self),
                outcome(r),
                (spec_peek_byte(old(self).reader.unread()), old(self).reader.unread()),
            ),
    {
        self.reader.peek_byte()
    }

    /// Consumes the next byte if it is `expected`, and refuses it otherwise.
    pub fn consume_byte(&mut self, expected: u8) -> (r: Result<()>)
        ensures
            *final(final(self).reader) == *final(old(self).reader),
            Self::yields(
                *old(self),
                *final(self),
                outcome(r),
                spec_consume_byte(old(self).reader.unread(), expected),
            ),
    {
        let byte = self.reader.peek_byte()?;
        if byte != expected {
            let mut message = String::from_str("Expected byte: ");
            push_char(&mut message, expected as char);
            return Err(Error::from_syntax(message.as_str()));
        }
        self.reader.consume_current_token()
    }

    /// Reads the digits of an integer and its closing `e`.
    pub fn parse_integer(&mut self) -> (r: Result<i64>)
        ensures
            *final(final(self).reader) == *final(old(self).reader),
            Self::yields(
                *old(self),
                *final(self),
                outcome(r),
                spec_read_i64(old(self).reader.unread()),
            ),
    {
        self.reader.read_i64()
    }

    /// Reads a byte string with its length prefix.
    pub fn parse_bytes(&mut self) -> (r: Result<Vec<u8>>)
        ensures
            *final(final(self).reader) == *final(old(self).reader),
            Self::yields(
                *old(self),
                *final(self),
                outcome_view(r),
                spec_read_bytes(old(self).reader.unread()),
            ),
    {
        self.reader.read_bytes()
    }

    /// Reads the node that stands next.
    pub fn parse(&mut self) -> (r: Result<BencodeNode>)
        ensures
            *final(final(self).reader) == *final(old(self).reader),
            Self::yields(
                *old(self),
                *final(self),
                outcome_view(r),
                spec_parse(old(self).reader.unread()),
            ),
    {
        let byte = self.peek_byte()?;
        if byte == TOKEN_INTEGER {
            self.consume_byte(TOKEN_INTEGER)?;
            Ok(BencodeNode::Int(self.parse_integer()?))
        } else if byte == TOKEN_LIST {
            self.consume_byte(TOKEN_LIST)?;
            Ok(BencodeNode::List)
        } else if byte == TOKEN_DICT {
            self.consume_byte(TOKEN_DICT)?;
            Ok(BencodeNode::Dict)
        } else if byte == TOKEN_END {
            self.consume_byte(TOKEN_END)?;
            Ok(BencodeNode::End)
        } else if DIGIT_ZERO <= byte && byte <= DIGIT_NINE {
            Ok(BencodeNode::Bytes(self.parse_bytes()?))
        } else {
            let mut message = String::from_str("Unrecognized token: ");
            push_char(&mut message, byte as char);
            Err(Error::from_syntax(message.as_str()))
        }
    }

    /// Consumes the end token if it stands next. `None`, and nothing
    /// consumed, when another byte does; the error when the input is over.
    pub fn try_consume_end_token(&mut self) -> (r: Option<Result<()>>)
        ensures
            *final(final(self).reader) == *final(old(self).reader),
            final(self).reader.reliable() == old(self).reader.reliable(),
            Self::steps(
                *old(self),
                *final(self),
                optional_outcome(r),
                spec_try_end(old(self).reader.unread()),
            ),
    {
        match self.peek_byte() {
            Ok(byte) => if byte == TOKEN_END {
                Some(self.consume_byte(TOKEN_END))
            } else {
                None
            },
            Err(e) => Some(Err(e)),
        }
    }

    /// Whether a byte is left to read.
    pub fn has_data_left(&mut self) -> (r: Result<bool>)
        ensures
            *final(final(self).reader) == *final(old(self).reader),
            Self::yields(
                *old(self),
                *final(self),
                outcome(r),
                (Ok(old(self).reader.unread().len() > 0), old(self).reader.unread()),
            ),
    {
        self.reader.has_tokens_left()
    }

    /// The next node, or `None` when the input is through.
    pub fn next(&mut self) -> (r: Option<Result<BencodeNode>>)
        ensures
            *final(final(self).reader) == *final(old(self).reader),
            final(self).reader.reliable() == old(self).reader.reliable(),
            Self::steps(
                *old(self),
                *final(self),
                optional_outcome_view(r),
                spec_next(old(self).reader.unread()),
            ),
    {
        match self.has_data_left() {
            Err(e) => Some(Err(e)),
            Ok(false) => None,
            Ok(true) => Some(self.parse()),
        }
    }
}

/// What `next` does on the unread bytes `s`: nothing where none is left,
/// and otherwise what `parse` does.
pub open spec fn spec_next(s: Seq<u8>) -> (
    Option<std::result::Result<NodeView, ErrorView>>,
    Seq<u8>,
) {
    if s.len() == 0 {
        (None, s)
    } else {
        (Some(spec_parse(s).0), spec_parse(s).1)
    }
}

/// The view of what `next` returns.
pub open spec fn optional_outcome_view(r: Option<Result<BencodeNode>>) -> Option<
    std::result::Result<NodeView, ErrorView>,
> {
    match r {
        Some(r) => Some(outcome_view(r)),
        None => None,
    }
}

/// What `try_consume_end_token` does on the unread bytes `s`: the end token
/// is consumed, any other byte stays, and there is an error where no byte is
/// left.
pub open spec fn spec_try_end(s: Seq<u8>) -> (
    Option<std::result::Result<(), ErrorView>>,
    Seq<u8>,
) {
    match spec_peek_byte(s) {
        Err(e) => (Some(Err(e)), s),
        Ok(b) => if b == TOKEN_END {
            (Some(Ok(())), s.skip(1))
        } else {
            (None, s)
        },
    }
}

} // verus!
