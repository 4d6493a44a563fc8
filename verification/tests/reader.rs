use tforge::bencode::error::Error;
use tforge::bencode::reader::{BencodeReader, Cursor};
use tforge::bencode::tokens::Token;

#[test]
fn test_peek_token() {
    let mut reader = Cursor::new(b"i");
    assert_eq!(reader.peek_token().unwrap(), Token::Int);

    let mut reader = Cursor::new(b"l");
    assert_eq!(reader.peek_token().unwrap(), Token::List);

    let mut reader = Cursor::new(b"d");
    assert_eq!(reader.peek_token().unwrap(), Token::Dict);

    let mut reader = Cursor::new(b"e");
    assert_eq!(reader.peek_token().unwrap(), Token::End);

    let bytes = b"0123456789";
    for byte in bytes {
        let byte_array = [*byte];
        let mut reader = Cursor::new(&byte_array);
        assert_eq!(reader.peek_token().unwrap(), Token::Bytes);
    }

    let mut reader = Cursor::new(b"x");
    assert!(reader.peek_token().is_err());
}

#[test]
fn test_consume_current_token() {
    let mut reader = Cursor::new(b"a");
    assert!(reader.consume_current_token().is_ok());
    assert!(
        !reader.has_tokens_left().unwrap(),
        "Expected no tokens left"
    );
    assert_eq!(reader.remaining(), b"");

    let mut reader = Cursor::new(b"ab");
    assert!(reader.consume_current_token().is_ok());
    assert!(
        reader.has_tokens_left().unwrap(),
        "Expected some tokens left"
    );
    assert_eq!(reader.remaining(), b"b");
}

#[test]
fn test_has_tokens_left() {
    let mut reader = Cursor::new(b"");
    assert!(
        !reader.has_tokens_left().unwrap(),
        "Expected no tokens left"
    );

    let mut reader = Cursor::new(b"a");
    assert!(
        reader.has_tokens_left().unwrap(),
        "Expected some tokens left"
    );

    let mut reader = Cursor::new(b"ab");
    assert!(
        reader.has_tokens_left().unwrap(),
        "Expected some tokens left"
    );
}

#[test]
fn test_read_until_delim() {
    let mut reader = Cursor::new(b"hello world");
    assert!(
        reader.read_until_delim().is_err(),
        "expected error when no delimiter"
    );
    assert_eq!(reader.remaining(), b"");

    let mut reader = Cursor::new(b":hello world");
    assert_eq!(reader.read_until_delim().unwrap(), b"");
    assert_eq!(reader.remaining(), b"hello world");

    let mut reader = Cursor::new(b"hello world:");
    assert_eq!(reader.read_until_delim().unwrap(), b"hello world");
    assert_eq!(reader.remaining(), b"");

    let mut reader = Cursor::new(b"hello:world");
    assert_eq!(reader.read_until_delim().unwrap(), b"hello");
    assert_eq!(reader.remaining(), b"world");
}

#[test]
fn test_read_until_end() {
    let mut reader = Cursor::new(b"12345");
    assert!(
        reader.read_until_end().is_err(),
        "expected error when no end token"
    );
    assert_eq!(reader.remaining(), b"");

    let mut reader = Cursor::new(b"12345e");
    assert_eq!(reader.read_until_end().unwrap(), b"12345");
    assert_eq!(reader.remaining(), b"");

    let mut reader = Cursor::new(b"e12345");
    assert_eq!(reader.read_until_end().unwrap(), b"");
    assert_eq!(reader.remaining(), b"12345");

    let mut reader = Cursor::new(b"123e45");
    assert_eq!(reader.read_until_end().unwrap(), b"123");
    assert_eq!(reader.remaining(), b"45");
}

#[test]
fn test_read_of_size() {
    let mut reader = Cursor::new(b"hello world");
    assert_eq!(reader.read_of_size(5).unwrap(), b"hello");
    assert_eq!(reader.remaining(), b" world");

    let mut reader = Cursor::new(b"hello world");
    assert_eq!(reader.read_of_size(0).unwrap(), b"");
    assert_eq!(reader.remaining(), b"hello world");

    let mut reader = Cursor::new(b"hello world");
    assert_eq!(reader.read_of_size(11).unwrap(), b"hello world");
    assert_eq!(reader.remaining(), b"");

    let mut reader = Cursor::new(b"hello world");
    assert!(reader.read_of_size(12).is_err());
    assert_eq!(reader.remaining(), b"hello world");
}

#[test]
fn test_read_i64() {
    let mut reader = Cursor::new(b"12345e");
    assert_eq!(reader.read_i64().unwrap(), 12345);
    assert_eq!(reader.remaining(), b"");

    let mut reader = Cursor::new(b"-12345e");
    assert_eq!(reader.read_i64().unwrap(), -12345);
    assert_eq!(reader.remaining(), b"");

    let mut reader = Cursor::new(b"12345");
    assert!(reader.read_i64().is_err());
    assert_eq!(reader.remaining(), b"");

    let mut reader = Cursor::new(b"12345e12345");
    assert_eq!(reader.read_i64().unwrap(), 12345);
    assert_eq!(reader.remaining(), b"12345");
}

#[test]
fn test_read_bytes() {
    let mut reader = Cursor::new(b"5:hello");
    assert_eq!(reader.read_bytes().unwrap(), b"hello");
    assert_eq!(reader.remaining(), b"");

    let mut reader = Cursor::new(b"0:");
    assert_eq!(reader.read_bytes().unwrap(), b"");
    assert_eq!(reader.remaining(), b"");

    let mut reader = Cursor::new(b"5:hello world");
    assert_eq!(reader.read_bytes().unwrap(), b"hello");
    assert_eq!(reader.remaining(), b" world");

    let mut reader = Cursor::new(b"5:hello5:world");
    assert_eq!(reader.read_bytes().unwrap(), b"hello");
    assert_eq!(reader.remaining(), b"5:world");

    let mut reader = Cursor::new(b"11:hello world");
    assert_eq!(reader.read_bytes().unwrap(), b"hello world");
    assert_eq!(reader.remaining(), b"");

    let mut reader = Cursor::new(b"100:hello world");
    assert!(reader.read_bytes().is_err());
    assert_eq!(reader.remaining(), b"hello world");
}

#[test]
fn test_read_string() {
    let mut reader = Cursor::new(b"5:hello");
    assert_eq!(reader.read_string().unwrap(), "hello");
    assert_eq!(reader.remaining(), b"");

    let mut reader = Cursor::new(b"0:");
    assert_eq!(reader.read_string().unwrap(), "");
    assert_eq!(reader.remaining(), b"");

    let mut reader = Cursor::new(b"5:hello world");
    assert_eq!(reader.read_string().unwrap(), "hello");
    assert_eq!(reader.remaining(), b" world");

    let mut reader = Cursor::new(b"5:hello5:world");
    assert_eq!(reader.read_string().unwrap(), "hello");
    assert_eq!(reader.remaining(), b"5:world");

    let mut reader = Cursor::new(b"11:hello world");
    assert_eq!(reader.read_string().unwrap(), "hello world");
    assert_eq!(reader.remaining(), b"");

    let mut reader = Cursor::new(b"100:hello world");
    assert!(reader.read_string().is_err());
    assert_eq!(reader.remaining(), b"hello world");
}

#[test]
fn read_of_size_reports_a_short_input_as_io() {
    let mut reader = Cursor::new(b"abc");
    assert!(matches!(reader.read_of_size(4), Err(Error::IO(_))));
    assert_eq!(reader.position(), 0);
}

#[test]
fn read_until_reports_the_missing_delimiter() {
    let mut reader = Cursor::new(b"");
    assert!(matches!(
        reader.read_until_delim(),
        Err(Error::ExpectedDelimiter)
    ));
    let mut reader = Cursor::new(b"123");
    assert!(matches!(reader.read_until_end(), Err(Error::ExpectedEnd)));
}

#[test]
fn peek_reports_the_end_of_input() {
    let mut reader = Cursor::new(b"");
    assert!(matches!(reader.peek_token(), Err(Error::EOF)));
    assert!(matches!(reader.peek_byte(), Err(Error::EOF)));
}

#[test]
fn peek_reports_the_offending_byte() {
    let mut reader = Cursor::new(b"x");
    match reader.peek_token() {
        Err(Error::Syntax(message)) => assert_eq!(message, "Unrecognized token: x"),
        other => panic!("unexpected: {:?}", other),
    }
    assert_eq!(reader.remaining(), b"x");
}

#[test]
fn read_i64_reports_text_that_is_no_integer() {
    let mut reader = Cursor::new(b"12a4e");
    assert!(matches!(reader.read_i64(), Err(Error::ParseInt(_))));
    let mut reader = Cursor::new(b"e");
    assert!(matches!(reader.read_i64(), Err(Error::ParseInt(_))));
    let mut reader = Cursor::new(b"9223372036854775808e");
    assert!(matches!(reader.read_i64(), Err(Error::ParseInt(_))));
    let mut reader = Cursor::new(b"-9223372036854775808e");
    assert_eq!(reader.read_i64().unwrap(), i64::MIN);
}

fn assert_syntax(result: Result<i64, Error>, expected: &str) {
    match result {
        Err(Error::Syntax(message)) => assert_eq!(message, expected),
        other => panic!("unexpected: {:?}", other),
    }
}

#[test]
fn read_i64_wants_the_canonical_numeral() {
    for input in [&b"+7e"[..], b"007e", b"-0e", b"00e", b"-01e", b"+0e"] {
        let mut reader = Cursor::new(input);
        assert_syntax(reader.read_i64(), "Integer is not in canonical form");
        assert_eq!(reader.remaining(), b"");
    }
    let mut reader = Cursor::new(b"0e");
    assert_eq!(reader.read_i64().unwrap(), 0);
    let mut reader = Cursor::new(b"-10e");
    assert_eq!(reader.read_i64().unwrap(), -10);
    let mut reader = Cursor::new(b"9223372036854775807e");
    assert_eq!(reader.read_i64().unwrap(), i64::MAX);
}

#[test]
fn read_bytes_wants_the_canonical_length() {
    for input in [&b"005:hello"[..], b"+5:hello", b"00:"] {
        let mut reader = Cursor::new(input);
        match reader.read_bytes() {
            Err(Error::Syntax(message)) => {
                assert_eq!(message, "Length is not in canonical form")
            }
            other => panic!("unexpected: {:?}", other),
        }
    }
    let mut reader = Cursor::new(b"005:hello");
    assert!(reader.read_string().is_err());
    assert_eq!(reader.remaining(), b"hello");
    let mut reader = Cursor::new(b"10:0123456789");
    assert_eq!(reader.read_bytes().unwrap(), b"0123456789");
}

#[test]
fn read_reports_bytes_that_are_no_text() {
    let mut reader = Cursor::new(b"\xffe");
    assert!(matches!(reader.read_i64(), Err(Error::UTF8(_))));
    let mut reader = Cursor::new(b"2:\xff\xfe");
    assert!(matches!(reader.read_string(), Err(Error::UTF8(_))));
    let mut reader = Cursor::new(b"-1:");
    assert!(matches!(reader.read_bytes(), Err(Error::ParseInt(_))));
}

#[test]
fn read_copies_what_is_unread() {
    let mut reader = Cursor::new(b"abc");
    reader.consume_current_token().unwrap();
    assert_eq!(reader.read().unwrap(), b"bc");
    assert_eq!(reader.remaining(), b"bc");
}
