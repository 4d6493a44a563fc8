use tforge::bencode::value::{Value as Source, MAX_DEPTH};
use tforge::urlencoded::serializer::{to_string, Error, SeqSerializer, Serializer};
use tforge::urlencoded::value::{encode_bytes, encode_chars, Value};

#[test]
fn test_serialize_bool() {
    let ser = &Serializer::new();
    let result = ser.serialize_bool(true);
    assert_eq!(result, Ok(Value::Text("true".to_string())));
}

#[test]
fn test_serialize_i8() {
    let ser = &Serializer::new();
    let result = ser.serialize_i8(-42i8);
    assert_eq!(result, Ok(Value::Text("-42".to_string())));
}

#[test]
fn test_serialize_i16() {
    let ser = &Serializer::new();
    let result = ser.serialize_i16(-42i16);
    assert_eq!(result, Ok(Value::Text("-42".to_string())));
}

#[test]
fn test_serialize_i32() {
    let ser = &Serializer::new();
    let result = ser.serialize_i32(-42i32);
    assert_eq!(result, Ok(Value::Text("-42".to_string())));
}

#[test]
fn test_serialize_i64() {
    let ser = &Serializer::new();
    let result = ser.serialize_i64(-42i64);
    assert_eq!(result, Ok(Value::Text("-42".to_string())));
}

#[test]
fn test_serialize_u8() {
    let ser = &Serializer::new();
    let result = ser.serialize_u8(42u8);
    assert_eq!(result, Ok(Value::Text("42".to_string())));
}

#[test]
fn test_serialize_u16() {
    let ser = &Serializer::new();
    let result = ser.serialize_u16(42u16);
    assert_eq!(result, Ok(Value::Text("42".to_string())));
}

#[test]
fn test_serialize_u32() {
    let ser = &Serializer::new();
    let result = ser.serialize_u32(42u32);
    assert_eq!(result, Ok(Value::Text("42".to_string())));
}

#[test]
fn test_serialize_u64() {
    let ser = &Serializer::new();
    let result = ser.serialize_u64(42u64);
    assert_eq!(result, Ok(Value::Text("42".to_string())));
}

#[test]
fn test_serialize_char() {
    let ser = &Serializer::new();
    let result = ser.serialize_char('a');
    assert_eq!(result, Ok(Value::Text("a".to_string())));
}

#[test]
fn test_serialize_char_emojii() {
    let ser = &Serializer::new();
    let result = ser.serialize_char('\u{1f600}');
    assert_eq!(result, Ok(Value::Text("%F0%9F%98%80".to_string())));
}

#[test]
fn test_serialize_char_space() {
    let ser = &Serializer::new();
    let result = ser.serialize_char(' ');
    assert_eq!(result, Ok(Value::Text("%20".to_string())));
}

#[test]
fn test_serialize_str() {
    let ser = &Serializer::new();
    let result = ser.serialize_str("hello world");
    assert_eq!(result, Ok(Value::Text("hello%20world".to_string())));
}

#[test]
fn test_serialize_bytes() {
    let ser = &Serializer::new();
    let result = ser.serialize_bytes(b"hello world");
    assert_eq!(
        result,
        Ok(Value::Text(
            "%68%65%6C%6C%6F%20%77%6F%72%6C%64".to_string()
        ))
    );
}

#[test]
fn test_serialize_none() {
    let ser = &Serializer::new();
    let result = ser.serialize_none();
    assert_eq!(result, Ok(Value::Empty));
}

#[test]
fn test_serialize_some() {
    let ser = &Serializer::new();
    let result = ser.serialize_some(&Source::Int(42));
    assert_eq!(result, Ok(Value::Text("42".to_string())));
}

#[test]
fn test_serialize_unit() {
    let ser = &Serializer::new();
    let result = ser.serialize_unit();
    assert_eq!(result, Ok(Value::Empty));
}

#[test]
fn test_serialize_unit_struct() {
    let ser = &Serializer::new();
    let result = ser.serialize_unit_struct("Unit");
    assert_eq!(result, Ok(Value::Empty));
}

#[test]
fn unreserved_characters_stand() {
    assert_eq!(
        encode_chars("azAZ09-_.~"),
        "azAZ09-_.~"
    );
    assert_eq!(encode_chars("a/b?c=d&e"), "a%2Fb%3Fc%3Dd%26e");
    assert_eq!(encode_chars("caf\u{e9}"), "caf%C3%A9");
    assert_eq!(encode_chars(""), "");
}

#[test]
fn every_byte_is_escaped() {
    assert_eq!(encode_bytes(b""), "");
    assert_eq!(encode_bytes(b"a"), "%61");
    assert_eq!(encode_bytes(&[0x00, 0x0f, 0xf0, 0xff]), "%00%0F%F0%FF");
}

#[test]
fn values_as_they_are_written() {
    assert_eq!(Value::Text("a".to_string()).to_string(), "a");
    assert_eq!(Value::Empty.to_string(), "");
    assert_eq!(
        Value::Named("k".to_string(), Box::new(Value::Text("v".to_string()))).to_string(),
        "k=v"
    );
    assert_eq!(
        Value::List(vec![
            Value::Text("a".to_string()),
            Value::Empty,
            Value::List(vec![Value::Text("b".to_string())]),
        ])
        .to_string(),
        "[a[b]]"
    );
}

#[test]
fn values_from_plain_values() {
    assert_eq!(Value::from_bool(false), Value::Text("false".to_string()));
    assert_eq!(
        Value::from_i64(i64::MIN),
        Value::Text("-9223372036854775808".to_string())
    );
    assert_eq!(
        Value::from_u64(u64::MAX),
        Value::Text("18446744073709551615".to_string())
    );
    assert_eq!(Value::from_u64(0), Value::Text("0".to_string()));
    assert_eq!(Value::from_char('~'), Value::Text("~".to_string()));
    assert_eq!(Value::from_text("a b"), Value::Text("a%20b".to_string()));
    assert_eq!(Value::from_bytes(b"~"), Value::Text("%7E".to_string()));
    assert_eq!(Value::from_list(vec![]), Value::List(vec![]));
}

#[test]
fn a_list_is_serialized_item_by_item() {
    let ser = Serializer::new();
    let source = Source::List(vec![
        Source::Int(1),
        Source::Text("a b".to_string()),
        Source::Absent,
        Source::Present(Box::new(Source::UInt(2))),
        Source::Variant("Tag".to_string(), None),
    ]);
    assert_eq!(
        ser.serialize(&source),
        Ok(Value::List(vec![
            Value::Text("1".to_string()),
            Value::Text("a%20b".to_string()),
            Value::Empty,
            Value::Text("2".to_string()),
            Value::Text("Tag".to_string()),
        ]))
    );
    assert_eq!(to_string(&source).unwrap(), "[1a%20b2Tag]");
}

#[test]
fn a_list_in_the_making() {
    let ser = Serializer::new();
    let mut seq = SeqSerializer::new(&ser);
    seq.serialize_element(&Source::Int(1)).unwrap();
    assert!(seq.serialize_element(&Source::Dict(vec![])).is_err());
    seq.serialize_element(&Source::Int(2)).unwrap();
    assert_eq!(
        seq.end(),
        Ok(Value::List(vec![
            Value::Text("1".to_string()),
            Value::Text("2".to_string()),
        ]))
    );
    let seq = SeqSerializer::new_with_capacity(&ser, 4);
    assert_eq!(seq.end(), Ok(Value::List(vec![])));
    let seq = ser.serialize_seq(None);
    assert_eq!(seq.end(), Ok(Value::List(vec![])));
    let seq = ser.serialize_tuple(2);
    assert_eq!(seq.end(), Ok(Value::List(vec![])));
}

#[test]
fn what_has_no_form_is_refused() {
    let ser = Serializer::new();
    for source in [
        Source::Dict(vec![]),
        Source::Record(vec![]),
        Source::Variant("T".to_string(), Some(Box::new(Source::Int(1)))),
        Source::List(vec![Source::Int(1), Source::Dict(vec![])]),
    ] {
        match ser.serialize(&source) {
            Err(Error::Custom(message)) => assert_eq!(message, "unsupported value"),
            other => panic!("unexpected: {:?}", other),
        }
        assert_eq!(to_string(&source).unwrap_err().to_string(), "unsupported value");
    }
}

#[test]
fn a_value_that_nests_too_deep_has_no_query_value() {
    let mut deep = Source::List(vec![Source::Int(1)]);
    for _ in 1..MAX_DEPTH {
        deep = Source::List(vec![deep]);
    }
    let ser = Serializer::new();
    assert!(ser.serialize(&deep).is_ok());
    let deeper = Source::List(vec![deep]);
    match ser.serialize(&deeper) {
        Err(Error::Custom(message)) => assert_eq!(message, "nesting too deep"),
        other => panic!("unexpected: {:?}", other),
    }
    assert_eq!(to_string(&deeper).unwrap_err().to_string(), "nesting too deep");
    let mut seq = SeqSerializer::new(&ser);
    assert!(seq.serialize_element(&deeper).is_err());
    assert_eq!(seq.end(), Ok(Value::List(vec![])));
}
