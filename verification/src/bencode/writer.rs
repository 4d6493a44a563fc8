//! The byte-stream writer: one primitive for each kind of token.

use crate::bencode::error::{fails_with, ErrorView, Result};
use crate::bencode::tokens::{
    byte_of, Token, TOKEN_DELIM, TOKEN_DICT, TOKEN_END, TOKEN_INTEGER, TOKEN_LIST,
};
use crate::text::{decimal, decimal_digits, push_decimal, push_decimal_digits};
use vstd::prelude::*;

verus! {

/// An integer on the wire: `i`, its decimal numeral, `e`.
pub open spec fn integer_bytes(v: int) -> Seq<u8> {
    seq![TOKEN_INTEGER] + decimal(v) + seq![TOKEN_END]
}

/// A byte string on the wire: its length in decimal, `:`, the bytes.
pub open spec fn byte_string_bytes(bytes: Seq<u8>) -> Seq<u8> {
    decimal_digits(bytes.len()) + seq![TOKEN_DELIM] + bytes
}

/// How a write of `bytes` ends. On success exactly `bytes` were appended. A
/// reliable sink always succeeds; another may fail, with an I/O error.
pub open spec fn write_of(
    bytes: Seq<u8>,
    reliable: bool,
    before: Seq<u8>,
    after: Seq<u8>,
    r: Result<()>,
) -> bool {
    &&& reliable ==> r is Ok
    &&& r is Ok ==> after == before + bytes
    &&& r matches Err(e) ==> e@ == ErrorView::IO
}

/// A sink of bytes. `written` is everything that it has taken so far.
pub trait BencodeWriter: Sized {
    /// The bytes written so far.
    spec fn written(&self) -> Seq<u8>;

    /// Whether every write to this sink succeeds.
    spec fn reliable(&self) -> bool;

    /// Writes the byte of a structural token. `Bytes` has none: that is a
    /// syntax error, and nothing is written.
    fn write_token(&mut self, value: Token) -> (r: Result<()>)
        ensures
            final(self).reliable() == old(self).reliable(),
            byte_of(value) matches Some(b) ==> write_of(
                seq![b],
                old(self).reliable(),
                old(self).written(),
                final(self).written(),
                r,
            ),
            byte_of(value) is None ==> {
                &&& fails_with(r, ErrorView::Syntax("Cannot convert Bytes to u8"@))
                &&& final(self).written() == old(self).written()
            },
    ;

    fn write_signed_integer(&mut self, value: i64) -> (r: Result<()>)
        ensures
            final(self).reliable() == old(self).reliable(),
            write_of(
                integer_bytes(value as int),
                old(self).reliable(),
                old(self).written(),
                final(self).written(),
                r,
            ),
    ;

    fn write_unsigned_integer(&mut self, value: u64) -> (r: Result<()>)
        ensures
            final(self).reliable() == old(self).reliable(),
            write_of(
                integer_bytes(value as int),
                old(self).reliable(),
                old(self).written(),
                final(self).written(),
                r,
            ),
    ;

    fn write_bytes(&mut self, value: &[u8]) -> (r: Result<()>)
        ensures
            final(self).reliable() == old(self).reliable(),
            write_of(
                byte_string_bytes(value@),
                old(self).reliable(),
                old(self).written(),
                final(self).written(),
                r,
            ),
    ;

    fn write_list_start(&mut self) -> (r: Result<()>)
        ensures
            final(self).reliable() == old(self).reliable(),
            write_of(
                seq![TOKEN_LIST],
                old(self).reliable(),
                old(self).written(),
                final(self).written(),
                r,
            ),
    ;

    fn write_dict_start(&mut self) -> (r: Result<()>)
        ensures
            final(self).reliable() == old(self).reliable(),
            write_of(
                seq![TOKEN_DICT],
                old(self).reliable(),
                old(self).written(),
                final(self).written(),
                r,
            ),
    ;

    fn write_end(&mut self) -> (r: Result<()>)
        ensures
            final(self).reliable() == old(self).reliable(),
            write_of(
                seq![TOKEN_END],
                old(self).reliable(),
                old(self).written(),
                final(self).written(),
                r,
            ),
    ;
}

/// What a write of `bytes` does to a sink: see [`write_of`]. The sink stays
/// as reliable as it was.
pub open spec fn appended<W: BencodeWriter>(
    before: W,
    after: W,
    r: Result<()>,
    bytes: Seq<u8>,
) -> bool {
    &&& after.reliable() == before.reliable()
    &&& write_of(bytes, before.reliable(), before.written(), after.written(), r)
}

/// A growing buffer takes every write.
impl BencodeWriter for Vec<u8> {
    open spec fn written(&self) -> Seq<u8> {
        self@
    }

    open spec fn reliable(&self) -> bool {
        true
    }

    fn write_token(&mut self, value: Token) -> (r: Result<()>) {
        let byte = match value.try_into() {
            Ok(byte) => byte,
            Err(e) => { return Err(e); },
        };
        self.push(byte);
        assert(self@ =~= old(self)@ + seq![byte]);
        Ok(())
    }

    fn write_signed_integer(&mut self, value: i64) -> (r: Result<()>) {
        self.push(TOKEN_INTEGER);
        push_decimal(self, value);
        self.push(TOKEN_END);
        assert(self@ =~= old(self)@ + integer_bytes(value as int));
        Ok(())
    }

    fn write_unsigned_integer(&mut self, value: u64) -> (r: Result<()>) {
        self.push(TOKEN_INTEGER);
        push_decimal_digits(self, value);
        self.push(TOKEN_END);
        assert(self@ =~= old(self)@ + integer_bytes(value as int));
        Ok(())
    }

    fn write_bytes(&mut self, value: &[u8]) -> (r: Result<()>) {
        push_decimal_digits(self, value.len() as u64);
        self.push(TOKEN_DELIM);
        self.extend_from_slice(value);
        assert(self@ =~= old(self)@ + byte_string_bytes(value@));
        Ok(())
    }

    fn write_list_start(&mut self) -> (r: Result<()>) {
        self.write_token(Token::List)
    }

    fn write_dict_start(&mut self) -> (r: Result<()>) {
        self.write_token(Token::Dict)
    }

    fn write_end(&mut self) -> (r: Result<()>) {
        self.write_token(Token::End)
    }
}

} // verus!
