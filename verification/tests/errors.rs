use tforge::bencode::error::Error;
use tforge::bencode::reader::{BencodeReader, Cursor};

#[test]
fn errors_as_text() {
    assert_eq!(Error::EOF.to_string(), "EOF");
    assert_eq!(Error::ExpectedBytes.to_string(), "Expected bytes");
    assert_eq!(Error::ExpectedDelimiter.to_string(), "Expected delimiter");
    assert_eq!(Error::ExpectedEnd.to_string(), "Expected end");
    assert_eq!(Error::ExpectedList.to_string(), "Expected list");
    assert_eq!(Error::NestingTooDeep.to_string(), "Nesting too deep");
    assert_eq!(
        Error::from_internal("boom".to_string()).to_string(),
        "Internal error: boom"
    );
    assert_eq!(
        Error::from_syntax("Unexpected end").to_string(),
        "Syntax error: Unexpected end"
    );
    assert_eq!(
        Error::from_trailing_data(b"123".to_vec()).to_string(),
        "Trailing data: 123"
    );
    assert_eq!(
        Error::from_trailing_data(vec![b'a', 0xff]).to_string(),
        "Trailing data: a\u{fffd}"
    );
}

#[test]
fn errors_of_the_standard_library_as_text() {
    let io = std::io::Error::from(std::io::ErrorKind::UnexpectedEof);
    let expected = format!("IO error: {}", io);
    assert_eq!(Error::from_io(io).to_string(), expected);

    let utf8 = String::from_utf8(vec![0xff]).unwrap_err();
    let expected = format!("UTF8 error: {}", utf8);
    assert_eq!(Error::from_utf8(utf8).to_string(), expected);

    let parse = "x".parse::<i64>().unwrap_err();
    let expected = format!("ParseInt error: {}", parse);
    assert_eq!(Error::from_parse_int(parse).to_string(), expected);

    let unsupported = Error::from_unsupported_type::<u8>();
    assert!(matches!(unsupported, Error::UnsupportedType(_)));
    assert!(unsupported.to_string().starts_with("Unsupported type: "));
    assert!(unsupported.to_string().len() > "Unsupported type: ".len());
}

#[test]
fn a_short_read_is_an_unexpected_end_of_file() {
    let mut reader = Cursor::new(b"ab");
    match reader.read_of_size(3) {
        Err(Error::IO(e)) => assert_eq!(e.kind(), std::io::ErrorKind::UnexpectedEof),
        other => panic!("unexpected: {:?}", other),
    }
}
