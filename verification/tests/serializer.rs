use tforge::bencode::error::Error;
use tforge::bencode::serializer::{from_writer, Serializer};
use tforge::bencode::tokens::Token;
use tforge::bencode::value::{Value, MAX_DEPTH};
use tforge::bencode::writer::BencodeWriter;

fn text(s: &str) -> Value {
    Value::Text(s.to_string())
}

#[test]
fn test_serialize_signed_integer() {
    let mut buffer = Vec::new();
    let mut serializer = Serializer::from_writer(&mut buffer);

    serializer.serialize(&Value::Int(-42)).unwrap();
    assert_eq!(buffer, b"i-42e");
}

#[test]
fn test_serialize_unsigned_integer() {
    let mut buffer = Vec::new();
    let mut serializer = Serializer::from_writer(&mut buffer);

    serializer.serialize(&Value::Int(42)).unwrap();
    assert_eq!(buffer, b"i42e");
}

#[test]
fn test_serialize_string() {
    let mut buffer = Vec::new();
    let mut serializer = Serializer::from_writer(&mut buffer);

    serializer.serialize(&text("hello")).unwrap();
    assert_eq!(buffer, b"5:hello");
}

#[test]
fn test_serialize_string_list() {
    let mut buffer = Vec::new();
    let mut serializer = Serializer::from_writer(&mut buffer);

    serializer
        .serialize(&Value::List(vec![text("hello"), text("world")]))
        .unwrap();
    assert_eq!(buffer, b"l5:hello5:worlde");
}

#[test]
fn test_serialize_i64_list() {
    let mut buffer = Vec::new();
    let mut serializer = Serializer::from_writer(&mut buffer);

    serializer
        .serialize(&Value::List(vec![Value::Int(42), Value::Int(-42)]))
        .unwrap();
    assert_eq!(buffer, b"li42ei-42ee");
}

#[test]
fn test_serialize_map() {
    let mut buffer = Vec::new();
    let mut serializer = Serializer::from_writer(&mut buffer);

    let map = Value::Dict(vec![(text("hello"), text("world"))]);
    serializer.serialize(&map).unwrap();
    assert_eq!(buffer, b"d5:hello5:worlde");
}

#[test]
fn test_serialize_struct() {
    let mut buffer = Vec::new();
    let mut serializer = Serializer::from_writer(&mut buffer);

    let test = Value::Record(vec![
        ("hello".to_string(), text("world")),
        ("world".to_string(), text("hello")),
    ]);
    serializer.serialize(&test).unwrap();
    assert_eq!(buffer, b"d5:hello5:world5:world5:helloe");
}

#[test]
fn test_serialize_option_string() {
    let mut buffer = Vec::new();
    let mut serializer = Serializer::from_writer(&mut buffer);

    let value = Value::Present(Box::new(text("hello")));
    serializer.serialize(&value).unwrap();
    assert_eq!(buffer, b"5:hello");
}

#[test]
fn test_serialize_option_none() {
    let mut buffer = Vec::new();
    let mut serializer = Serializer::from_writer(&mut buffer);

    serializer.serialize(&Value::Absent).unwrap();
    assert_eq!(buffer, b"");
}

fn encoded(value: &Value) -> Vec<u8> {
    let mut buffer = Vec::new();
    let mut serializer = from_writer(&mut buffer);
    serializer.serialize(value).unwrap();
    buffer
}

#[test]
fn canonical_bytes() {
    assert_eq!(encoded(&Value::Int(42)), b"i42e");
    assert_eq!(encoded(&Value::Int(-1)), b"i-1e");
    assert_eq!(encoded(&text("spam")), b"4:spam");
    assert_eq!(encoded(&Value::List(vec![])), b"le");
    assert_eq!(encoded(&Value::Dict(vec![])), b"de");
}

#[test]
fn integers_at_the_edges() {
    assert_eq!(encoded(&Value::Int(0)), b"i0e");
    assert_eq!(encoded(&Value::Int(i64::MIN)), b"i-9223372036854775808e");
    assert_eq!(encoded(&Value::Int(i64::MAX)), b"i9223372036854775807e");
    assert_eq!(encoded(&Value::UInt(u64::MAX)), b"i18446744073709551615e");
    assert_eq!(encoded(&Value::UInt(10)), b"i10e");
}

#[test]
fn a_record_leaves_out_an_absent_field() {
    let record = Value::Record(vec![
        ("a".to_string(), Value::Absent),
        ("b".to_string(), Value::Present(Box::new(Value::Int(1)))),
    ]);
    assert_eq!(encoded(&record), b"d1:bi1ee");
}

#[test]
fn variants_on_the_wire() {
    assert_eq!(encoded(&Value::Variant("Red".to_string(), None)), b"3:Red");
    assert_eq!(
        encoded(&Value::Variant(
            "Grey".to_string(),
            Some(Box::new(Value::Int(7)))
        )),
        b"d4:Greyi7ee"
    );
    assert_eq!(
        encoded(&Value::Variant(
            "Rgb".to_string(),
            Some(Box::new(Value::List(vec![Value::Int(1), Value::Int(2)])))
        )),
        b"d3:Rgbli1ei2eee"
    );
}

#[test]
fn the_steps_of_a_tuple_variant() {
    let mut buffer = Vec::new();
    let mut serializer = from_writer(&mut buffer);
    serializer.serialize_tuple_variant("Rgb", 2).unwrap();
    serializer.serialize_element(&Value::Int(1)).unwrap();
    serializer.serialize_element(&Value::Int(2)).unwrap();
    serializer.end_tuple_variant().unwrap();
    assert_eq!(buffer, b"d3:Rgbli1ei2eee");
}

#[test]
fn the_steps_of_a_map_and_a_struct() {
    let mut buffer = Vec::new();
    let mut serializer = from_writer(&mut buffer);
    serializer.serialize_map(None).unwrap();
    serializer.serialize_key(&text("k")).unwrap();
    serializer.serialize_value(&Value::Int(1)).unwrap();
    serializer.serialize_entry(&(text("l"), Value::Int(2))).unwrap();
    serializer.serialize_entry(&(text("m"), Value::Absent)).unwrap();
    serializer.end().unwrap();
    assert_eq!(buffer, b"d1:ki1e1:li2ee");

    let mut buffer = Vec::new();
    let mut serializer = from_writer(&mut buffer);
    serializer.serialize_struct("Pair", 2).unwrap();
    serializer.serialize_field("a", &Value::Int(1)).unwrap();
    serializer.serialize_field("b", &Value::Absent).unwrap();
    serializer.end().unwrap();
    assert_eq!(buffer, b"d1:ai1ee");
}

#[test]
fn scalars_by_their_own_methods() {
    let mut buffer = Vec::new();
    let mut serializer = from_writer(&mut buffer);
    serializer.serialize_bool(true).unwrap();
    serializer.serialize_bool(false).unwrap();
    serializer.serialize_i8(-8).unwrap();
    serializer.serialize_i16(-16).unwrap();
    serializer.serialize_i32(-32).unwrap();
    serializer.serialize_u8(8).unwrap();
    serializer.serialize_u16(16).unwrap();
    serializer.serialize_u32(32).unwrap();
    serializer.serialize_char('a').unwrap();
    serializer.serialize_char('\u{e9}').unwrap();
    serializer.serialize_bytes(b"\x00\xff").unwrap();
    serializer.serialize_unit().unwrap();
    serializer.serialize_unit_struct("Unit").unwrap();
    serializer.serialize_none().unwrap();
    serializer.serialize_unit_variant("Red").unwrap();
    serializer.serialize_newtype_struct("Wrap", &Value::Int(5)).unwrap();
    serializer.serialize_newtype_variant("Grey", &Value::Int(7)).unwrap();
    serializer.serialize_some(&Value::Int(9)).unwrap();
    serializer.serialize_tuple(0).unwrap();
    serializer.end().unwrap();
    serializer.serialize_tuple_struct("T", 0).unwrap();
    serializer.end().unwrap();
    assert_eq!(
        buffer,
        b"i1ei0ei-8ei-16ei-32ei8ei16ei32e1:a2:\xc3\xa92:\x00\xff3:Redi5ed4:Greyi7eei9elele"
    );
}

#[test]
fn a_struct_variant_is_refused() {
    let mut buffer = Vec::new();
    let mut serializer = from_writer(&mut buffer);
    let result = serializer.serialize_struct_variant("Point", 2);
    assert!(matches!(result, Err(Error::UnsupportedType(_))));
    assert_eq!(buffer, b"");
}

#[test]
fn the_writer_by_itself() {
    let mut buffer: Vec<u8> = Vec::new();
    buffer.write_token(Token::List).unwrap();
    buffer.write_signed_integer(-7).unwrap();
    buffer.write_unsigned_integer(7).unwrap();
    buffer.write_bytes(b"ab").unwrap();
    buffer.write_dict_start().unwrap();
    buffer.write_list_start().unwrap();
    buffer.write_end().unwrap();
    buffer.write_token(Token::End).unwrap();
    buffer.write_token(Token::Int).unwrap();
    buffer.write_token(Token::Dict).unwrap();
    assert_eq!(buffer, b"li-7ei7e2:abdleeid");
    match buffer.write_token(Token::Bytes) {
        Err(Error::Syntax(message)) => assert_eq!(message, "Cannot convert Bytes to u8"),
        other => panic!("unexpected: {:?}", other),
    }
    assert_eq!(buffer, b"li-7ei7e2:abdleeid");
}

#[test]
fn a_map_leaves_out_an_entry_whose_value_is_absent() {
    let map = Value::Dict(vec![
        (text("a"), Value::Absent),
        (text("b"), Value::Int(1)),
    ]);
    assert_eq!(encoded(&map), b"d1:bi1ee");
    assert_eq!(encoded(&Value::Dict(vec![(text("a"), Value::Absent)])), b"de");
}

#[test]
fn an_absent_value_does_not_follow_a_key() {
    let mut buffer = Vec::new();
    let mut serializer = from_writer(&mut buffer);
    serializer.serialize_map(None).unwrap();
    serializer.serialize_key(&text("a")).unwrap();
    match serializer.serialize_value(&Value::Absent) {
        Err(Error::Internal(message)) => assert_eq!(message, "a key without its value"),
        other => panic!("unexpected: {:?}", other),
    }
    assert_eq!(buffer, b"d1:a");
}

fn nested(levels: usize) -> Value {
    let mut value = Value::List(vec![]);
    for _ in 1..levels {
        value = Value::List(vec![value]);
    }
    value
}

#[test]
fn a_value_is_encoded_as_deep_as_the_limit() {
    let mut buffer = Vec::new();
    let mut serializer = from_writer(&mut buffer);
    serializer.serialize(&nested(MAX_DEPTH)).unwrap();
    let mut expected = vec![b'l'; MAX_DEPTH];
    expected.extend(vec![b'e'; MAX_DEPTH]);
    assert_eq!(buffer, expected);
    assert!(nested(MAX_DEPTH).is_within(MAX_DEPTH));
    assert!(!nested(MAX_DEPTH).is_within(MAX_DEPTH - 1));
}

#[test]
fn a_value_that_nests_too_deep_is_refused_before_anything_is_written() {
    let mut buffer = b"x".to_vec();
    let mut serializer = from_writer(&mut buffer);
    let result = serializer.serialize(&nested(MAX_DEPTH + 1));
    assert!(matches!(result, Err(Error::NestingTooDeep)));
    let result = serializer.serialize_element(&nested(MAX_DEPTH));
    assert!(matches!(result, Err(Error::NestingTooDeep)));
    let result = serializer.serialize_field("k", &nested(MAX_DEPTH));
    assert!(matches!(result, Err(Error::NestingTooDeep)));
    let result = serializer.serialize_entry(&(nested(MAX_DEPTH), Value::Int(1)));
    assert!(matches!(result, Err(Error::NestingTooDeep)));
    let result = serializer.serialize_newtype_variant("V", &nested(MAX_DEPTH));
    assert!(matches!(result, Err(Error::NestingTooDeep)));
    let result = serializer.serialize_some(&nested(MAX_DEPTH));
    assert!(matches!(result, Err(Error::NestingTooDeep)));
    assert_eq!(buffer, b"x");
    let deep = Value::Present(Box::new(Value::Variant(
        "V".to_string(),
        Some(Box::new(Value::Record(vec![(
            "f".to_string(),
            Value::Dict(vec![(nested(MAX_DEPTH - 4), Value::Int(1))]),
        )]))),
    )));
    assert!(deep.is_within(MAX_DEPTH));
    assert!(!Value::Present(Box::new(deep)).is_within(MAX_DEPTH));
}
