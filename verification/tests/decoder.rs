use tforge::bencode::decoder::{BencodeNode, Decoder};
use tforge::bencode::error::Error;
use tforge::bencode::reader::Cursor;

#[test]
fn the_nodes_of_a_nested_list() {
    let mut reader = Cursor::new(b"li1e3:food1:aleee");
    let mut decoder = Decoder::new(&mut reader);
    assert_eq!(decoder.next().unwrap().unwrap(), BencodeNode::List);
    assert_eq!(decoder.next().unwrap().unwrap(), BencodeNode::Int(1));
    assert_eq!(
        decoder.next().unwrap().unwrap(),
        BencodeNode::Bytes(b"foo".to_vec())
    );
    assert_eq!(decoder.next().unwrap().unwrap(), BencodeNode::Dict);
    assert_eq!(
        decoder.next().unwrap().unwrap(),
        BencodeNode::Bytes(b"a".to_vec())
    );
    assert_eq!(decoder.next().unwrap().unwrap(), BencodeNode::List);
    assert_eq!(decoder.next().unwrap().unwrap(), BencodeNode::End);
    assert_eq!(decoder.next().unwrap().unwrap(), BencodeNode::End);
    assert_eq!(decoder.next().unwrap().unwrap(), BencodeNode::End);
    assert!(decoder.next().is_none());
    assert!(!decoder.has_data_left().unwrap());
}

#[test]
fn a_byte_that_starts_no_node() {
    let mut reader = Cursor::new(b"x");
    let mut decoder = Decoder::new(&mut reader);
    match decoder.parse() {
        Err(Error::Syntax(message)) => assert_eq!(message, "Unrecognized token: x"),
        other => panic!("unexpected: {:?}", other),
    }
    assert_eq!(decoder.peek_byte().unwrap(), b'x');
}

#[test]
fn the_end_token_is_consumed_only_where_it_stands() {
    let mut reader = Cursor::new(b"ei1e");
    let mut decoder = Decoder::new(&mut reader);
    assert!(matches!(decoder.try_consume_end_token(), Some(Ok(()))));
    assert!(decoder.try_consume_end_token().is_none());
    assert_eq!(decoder.parse().unwrap(), BencodeNode::Int(1));
    assert!(matches!(
        decoder.try_consume_end_token(),
        Some(Err(Error::EOF))
    ));
    assert!(matches!(decoder.parse(), Err(Error::EOF)));
}

#[test]
fn a_byte_is_consumed_only_if_it_is_the_expected_one() {
    let mut reader = Cursor::new(b"li");
    let mut decoder = Decoder::new(&mut reader);
    match decoder.consume_byte(b'd') {
        Err(Error::Syntax(message)) => assert_eq!(message, "Expected byte: d"),
        other => panic!("unexpected: {:?}", other),
    }
    decoder.consume_byte(b'l').unwrap();
    assert_eq!(decoder.peek_byte().unwrap(), b'i');
    decoder.consume_byte(b'i').unwrap();
    assert!(matches!(decoder.consume_byte(b'e'), Err(Error::EOF)));
}

#[test]
fn integers_and_byte_strings_by_themselves() {
    let mut reader = Cursor::new(b"-12e3:abc");
    let mut decoder = Decoder::new(&mut reader);
    assert_eq!(decoder.parse_integer().unwrap(), -12);
    assert_eq!(decoder.parse_bytes().unwrap(), b"abc");
}
