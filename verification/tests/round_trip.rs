use tforge::bencode::canonical::less;
use tforge::bencode::codec::{decode, encode};
use tforge::bencode::deserializer::from_reader;
use tforge::bencode::reader::Cursor;
use tforge::bencode::serializer::from_writer;
use tforge::bencode::value::{Shape, Value};

fn text(s: &str) -> Value {
    Value::Text(s.to_string())
}

fn there_and_back(value: &Value, shape: &Shape) -> Value {
    let mut buffer = Vec::new();
    let mut serializer = from_writer(&mut buffer);
    serializer.serialize(value).unwrap();
    let mut reader = Cursor::new(&buffer);
    from_reader(&mut reader, shape).unwrap()
}

#[test]
fn integers_round_trip() {
    for v in [0, 1, -1, 42, -42, i64::MAX, i64::MIN] {
        assert_eq!(there_and_back(&Value::Int(v), &Shape::Int), Value::Int(v));
    }
    for v in [0, 1, 42, i64::MAX as u64] {
        assert_eq!(there_and_back(&Value::UInt(v), &Shape::UInt), Value::UInt(v));
    }
}

#[test]
fn text_and_bytes_round_trip() {
    for s in ["", "spam", "caf\u{e9}", "\u{1f600}", "a:b", "1e2"] {
        assert_eq!(there_and_back(&text(s), &Shape::Text), text(s));
    }
    let raw = Value::Bytes(vec![0, 255, b'e', b':', b'i']);
    assert_eq!(
        there_and_back(&raw, &Shape::Bytes),
        Value::Bytes(vec![0, 255, b'e', b':', b'i'])
    );
}

#[test]
fn lists_and_maps_round_trip() {
    let shape = Shape::List(Box::new(Shape::List(Box::new(Shape::Int))));
    let value = Value::List(vec![
        Value::List(vec![Value::Int(1), Value::Int(2)]),
        Value::List(vec![]),
    ]);
    assert_eq!(
        there_and_back(&value, &shape),
        Value::List(vec![
            Value::List(vec![Value::Int(1), Value::Int(2)]),
            Value::List(vec![]),
        ])
    );
    let shape = Shape::Dict(Box::new(Shape::Text), Box::new(Shape::Int));
    let value = Value::Dict(vec![(text("a"), Value::Int(1)), (text("b"), Value::Int(2))]);
    assert_eq!(
        there_and_back(&value, &shape),
        Value::Dict(vec![(text("a"), Value::Int(1)), (text("b"), Value::Int(2))])
    );
    let shape = Shape::Tuple(vec![Shape::Int, Shape::Text]);
    let value = Value::List(vec![Value::Int(1), text("x")]);
    assert_eq!(
        there_and_back(&value, &shape),
        Value::List(vec![Value::Int(1), text("x")])
    );
}

#[test]
fn records_round_trip() {
    let shape = Shape::Record(vec![
        ("a".to_string(), Shape::Optional(Box::new(Shape::Int))),
        ("b".to_string(), Shape::Text),
        ("c".to_string(), Shape::Optional(Box::new(Shape::Text))),
    ]);
    let value = Value::Record(vec![
        ("a".to_string(), Value::Absent),
        ("b".to_string(), text("x")),
        ("c".to_string(), Value::Present(Box::new(text("y")))),
    ]);
    assert_eq!(
        there_and_back(&value, &shape),
        Value::Record(vec![
            ("a".to_string(), Value::Absent),
            ("b".to_string(), text("x")),
            ("c".to_string(), Value::Present(Box::new(text("y")))),
        ])
    );
}

#[test]
fn variants_round_trip() {
    let shape = Shape::Enum(vec![
        ("Red".to_string(), None),
        ("Grey".to_string(), Some(Shape::Int)),
        (
            "Rgb".to_string(),
            Some(Shape::Tuple(vec![Shape::Int, Shape::Int, Shape::Int])),
        ),
    ]);
    let red = Value::Variant("Red".to_string(), None);
    assert_eq!(
        there_and_back(&red, &shape),
        Value::Variant("Red".to_string(), None)
    );
    let grey = Value::Variant("Grey".to_string(), Some(Box::new(Value::Int(7))));
    assert_eq!(
        there_and_back(&grey, &shape),
        Value::Variant("Grey".to_string(), Some(Box::new(Value::Int(7))))
    );
    let rgb = Value::Variant(
        "Rgb".to_string(),
        Some(Box::new(Value::List(vec![
            Value::Int(1),
            Value::Int(2),
            Value::Int(3),
        ]))),
    );
    assert_eq!(
        there_and_back(&rgb, &shape),
        Value::Variant(
            "Rgb".to_string(),
            Some(Box::new(Value::List(vec![
                Value::Int(1),
                Value::Int(2),
                Value::Int(3),
            ])))
        )
    );
}

#[test]
fn a_present_value_round_trips() {
    let shape = Shape::Optional(Box::new(Shape::Optional(Box::new(Shape::Int))));
    let value = Value::Present(Box::new(Value::Present(Box::new(Value::Int(3)))));
    assert_eq!(
        there_and_back(&value, &shape),
        Value::Present(Box::new(Value::Present(Box::new(Value::Int(3)))))
    );
}

#[test]
fn the_widest_unsigned_integer_does_not_come_back() {
    let mut buffer = Vec::new();
    let mut serializer = from_writer(&mut buffer);
    serializer.serialize(&Value::UInt(u64::MAX)).unwrap();
    let mut reader = Cursor::new(&buffer);
    assert!(from_reader(&mut reader, &Shape::UInt).is_err());
}

#[test]
fn a_shape_tells_whether_its_fields_are_sorted() {
    let sorted = Shape::Record(vec![
        ("a".to_string(), Shape::Int),
        ("ab".to_string(), Shape::Int),
        ("b".to_string(), Shape::Int),
    ]);
    assert!(sorted.is_sorted());
    let twice = Shape::Record(vec![
        ("a".to_string(), Shape::Int),
        ("a".to_string(), Shape::Int),
    ]);
    assert!(!twice.is_sorted());
    let unsorted = Shape::Record(vec![
        ("b".to_string(), Shape::Int),
        ("a".to_string(), Shape::Int),
    ]);
    assert!(!unsorted.is_sorted());
    let deep = Shape::List(Box::new(Shape::Enum(vec![
        ("Unit".to_string(), None),
        (
            "Wrap".to_string(),
            Some(Shape::Tuple(vec![Shape::Optional(Box::new(Shape::Dict(
                Box::new(Shape::Text),
                Box::new(Shape::Record(vec![
                    ("z".to_string(), Shape::Int),
                    ("y".to_string(), Shape::Int),
                ])),
            )))])),
        ),
    ])));
    assert!(!deep.is_sorted());
    assert!(Shape::Any.is_sorted());
    assert!(Shape::Record(vec![]).is_sorted());
}

#[test]
fn byte_strings_in_order() {
    assert!(less(b"", b"a"));
    assert!(!less(b"", b""));
    assert!(!less(b"a", b""));
    assert!(less(b"a", b"ab"));
    assert!(less(b"ab", b"b"));
    assert!(!less(b"b", b"ab"));
    assert!(!less(b"ab", b"ab"));
    assert!(less(b"piece length", b"pieces"));
    assert!(less(&[0x7f], &[0x80]));
}

#[test]
fn the_entry_points_of_the_codec() {
    let value = Value::List(vec![Value::Int(-3), text("x")]);
    let bytes = encode(&value).unwrap();
    assert_eq!(bytes, b"li-3e1:xe");
    let shape = Shape::Tuple(vec![Shape::Int, Shape::Text]);
    assert_eq!(decode(&bytes, &shape).unwrap(), value);
    assert!(decode(b"li-3e1:xee", &shape).is_err());
    assert_eq!(encode(&Value::Absent).unwrap(), b"");
}
