//! The lexical grammar: five kinds of token, told apart by one byte.

use crate::bencode::error::{fails_with, Error, ErrorView, Result};
use crate::text::push_char;
use vstd::prelude::*;
use vstd::string::StringExecFns;

verus! {

/// `i`, which opens an integer.
pub const TOKEN_INTEGER: u8 = 0x69;

/// `d`, which opens a dictionary.
pub const TOKEN_DICT: u8 = 0x64;

/// `l`, which opens a list.
pub const TOKEN_LIST: u8 = 0x6c;

/// `e`, which closes an integer, a list or a dictionary.
pub const TOKEN_END: u8 = 0x65;

/// `:`, which stands between a byte string's length and its bytes.
pub const TOKEN_DELIM: u8 = 0x3a;

/// `0`, the first of the ten digits.
pub const DIGIT_ZERO: u8 = 0x30;

/// `9`, the last of the ten digits.
pub const DIGIT_NINE: u8 = 0x39;

/// What the next unread byte announces.
#[derive(Debug, Eq, PartialEq, Copy, Clone, Structural)]
pub enum Token {
    Int,
    Bytes,
    List,
    Dict,
    End,
}

/// The token that `byte` starts, if it starts one: the four structural
/// letters, or a decimal digit for the length prefix of a byte string.
pub open spec fn token_of(byte: u8) -> Option<Token> {
    if byte == TOKEN_INTEGER {
        Some(Token::Int)
    } else if byte == TOKEN_DICT {
        Some(Token::Dict)
    } else if byte == TOKEN_LIST {
        Some(Token::List)
    } else if byte == TOKEN_END {
        Some(Token::End)
    } else if DIGIT_ZERO <= byte <= DIGIT_NINE {
        Some(Token::Bytes)
    } else {
        None
    }
}

/// The one byte that a structural token is written as; a byte string has none.
pub open spec fn byte_of(token: Token) -> Option<u8> {
    match token {
        Token::Int => Some(TOKEN_INTEGER),
        Token::Dict => Some(TOKEN_DICT),
        Token::List => Some(TOKEN_LIST),
        Token::End => Some(TOKEN_END),
        Token::Bytes => None,
    }
}

/// The complaint about a byte that starts no token.
pub open spec fn unrecognized_token(byte: u8) -> Seq<char> {
    "Unrecognized token: "@.push(byte as char)
}

impl Token {
    /// Classifies one lookahead byte.
    pub fn try_from(byte: u8) -> (r: Result<Token>)
        ensures
            token_of(byte) matches Some(t) ==> r == Ok::<Token, Error>(t),
            token_of(byte) is None ==> fails_with(r, ErrorView::Syntax(unrecognized_token(byte))),
    {
        if byte == TOKEN_INTEGER {
            Ok(Token::Int)
        } else if byte == TOKEN_DICT {
            Ok(Token::Dict)
        } else if byte == TOKEN_LIST {
            Ok(Token::List)
        } else if byte == TOKEN_END {
            Ok(Token::End)
        } else if DIGIT_ZERO <= byte && byte <= DIGIT_NINE {
            Ok(Token::Bytes)
        } else {
            let mut message = String::from_str("Unrecognized token: ");
            push_char(&mut message, byte as char);
            Err(Error::from_syntax(message.as_str()))
        }
    }

    /// The prefix byte of a structural token. `Bytes` is framed by a run of
    /// digits and has no byte of its own.
    pub fn try_into(self) -> (r: Result<u8>)
        ensures
            byte_of(self) matches Some(b) ==> r == Ok::<u8, Error>(b),
            byte_of(self) is None ==> fails_with(
                r,
                ErrorView::Syntax("Cannot convert Bytes to u8"@),
            ),
    {
        match self {
            Token::Int => Ok(TOKEN_INTEGER),
            Token::Dict => Ok(TOKEN_DICT),
            Token::List => Ok(TOKEN_LIST),
            Token::End => Ok(TOKEN_END),
            Token::Bytes => Err(Error::from_syntax("Cannot convert Bytes to u8")),
        }
    }
}

/// The two conversions agree: a structural token's byte is classified as
/// that token again.
pub proof fn lemma_token_byte_round_trip(token: Token)
    requires
        token != Token::Bytes,
    ensures
        byte_of(token) matches Some(b) && token_of(b) == Some(token),
{
}

} // verus!
