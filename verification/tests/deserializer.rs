use tforge::bencode::deserializer::{from_buffer, from_reader, Deserializer};
use tforge::bencode::error::Error;
use tforge::bencode::reader::Cursor;
use tforge::bencode::value::{Shape, Value, MAX_DEPTH};

fn text(s: &str) -> Value {
    Value::Text(s.to_string())
}

fn list_of(shape: Shape) -> Shape {
    Shape::List(Box::new(shape))
}

#[test]
fn deserializer_test_deserialize_i64() {
    let mut reader = Cursor::new(b"i123e");
    let result = from_buffer(&mut reader, &Shape::Int).unwrap();
    assert_eq!(result, Value::Int(123));
}

#[test]
fn deserializer_test_deserialize_negative_i64() {
    let mut reader = Cursor::new(b"i-123e");
    let result = from_buffer(&mut reader, &Shape::Int).unwrap();
    assert_eq!(result, Value::Int(-123));
}

#[test]
fn deserializer_test_deserialize_i64_errors_with_trailing_data() {
    let mut reader = Cursor::new(b"i123e123");
    let result = from_buffer(&mut reader, &Shape::Int);
    assert!(result.is_err());
    assert!(matches!(result.unwrap_err(), Error::TrailingData(_)));
}

#[test]
fn deserializer_test_deserialize_bytes_to_string() {
    let mut reader = Cursor::new(b"4:spam");
    let result = from_buffer(&mut reader, &Shape::Text).unwrap();
    assert_eq!(result, text("spam"));
}

#[test]
fn deserializer_test_deserialize_string_list() {
    let mut reader = Cursor::new(b"l3:foo3:bare");
    let result = from_buffer(&mut reader, &list_of(Shape::Text)).unwrap();
    assert_eq!(result, Value::List(vec![text("foo"), text("bar")]));
}

#[test]
fn deserializer_test_deserialize_i64_list() {
    let mut reader = Cursor::new(b"li123ei456ee");
    let result = from_buffer(&mut reader, &list_of(Shape::Int)).unwrap();
    assert_eq!(result, Value::List(vec![Value::Int(123), Value::Int(456)]));
}

#[test]
fn deserializer_test_deserialize_i64_list_inside_list() {
    let mut reader = Cursor::new(b"lli123ei456eee");
    let result = from_buffer(&mut reader, &list_of(list_of(Shape::Int))).unwrap();
    assert_eq!(
        result,
        Value::List(vec![Value::List(vec![Value::Int(123), Value::Int(456)])])
    );
}

#[test]
fn deserializer_test_deserialize_map() {
    let mut reader = Cursor::new(b"d3:foo3:bare");
    let shape = Shape::Dict(Box::new(Shape::Text), Box::new(Shape::Text));
    let result = from_buffer(&mut reader, &shape).unwrap();
    let expected = Value::Dict(vec![(text("foo"), text("bar"))]);
    assert_eq!(result, expected);
}

#[test]
fn mod_test_deserialize_i64() {
    let mut reader = Cursor::new(b"i123e");
    let result = from_reader(&mut reader, &Shape::Int).unwrap();
    assert_eq!(result, Value::Int(123));
}

#[test]
fn mod_test_deserialize_negative_i64() {
    let mut reader = Cursor::new(b"i-123e");
    let result = from_reader(&mut reader, &Shape::Int).unwrap();
    assert_eq!(result, Value::Int(-123));
}

#[test]
fn mod_test_deserialize_i64_errors_with_trailing_data() {
    let mut reader = Cursor::new(b"i123e123");
    let result = from_reader(&mut reader, &Shape::Int);
    assert!(result.is_err());
    assert!(matches!(result.unwrap_err(), Error::TrailingData(_)));
}

#[test]
fn mod_test_deserialize_bytes_to_string() {
    let mut reader = Cursor::new(b"4:spam");
    let result = from_reader(&mut reader, &Shape::Text).unwrap();
    assert_eq!(result, text("spam"));
}

#[test]
fn mod_test_deserialize_string_list() {
    let mut reader = Cursor::new(b"l3:foo3:bare");
    let result = from_reader(&mut reader, &list_of(Shape::Text)).unwrap();
    assert_eq!(result, Value::List(vec![text("foo"), text("bar")]));
}

#[test]
fn mod_test_deserialize_i64_list() {
    let mut reader = Cursor::new(b"li123ei456ee");
    let result = from_reader(&mut reader, &list_of(Shape::Int)).unwrap();
    assert_eq!(result, Value::List(vec![Value::Int(123), Value::Int(456)]));
}

#[test]
fn mod_test_deserialize_i64_list_inside_list() {
    let mut reader = Cursor::new(b"lli123ei456eee");
    let result = from_reader(&mut reader, &list_of(list_of(Shape::Int))).unwrap();
    assert_eq!(
        result,
        Value::List(vec![Value::List(vec![Value::Int(123), Value::Int(456)])])
    );
}

#[test]
fn test_deserialize_i64_tuple() {
    let mut reader = Cursor::new(b"li123ei456ee");
    let shape = Shape::Tuple(vec![Shape::Int, Shape::Int]);
    let result = from_reader(&mut reader, &shape).unwrap();
    assert_eq!(result, Value::List(vec![Value::Int(123), Value::Int(456)]));
}

#[test]
fn mod_test_deserialize_map() {
    let mut reader = Cursor::new(b"d3:foo3:bare");
    let shape = Shape::Dict(Box::new(Shape::Text), Box::new(Shape::Text));
    let result = from_reader(&mut reader, &shape).unwrap();
    let expected = Value::Dict(vec![(text("foo"), text("bar"))]);
    assert_eq!(result, expected);
}

#[test]
fn test_deserialize_option_some() {
    let mut reader = Cursor::new(b"i123e");
    let shape = Shape::Optional(Box::new(Shape::Int));
    let result = from_reader(&mut reader, &shape).unwrap();
    assert_eq!(result, Value::Present(Box::new(Value::Int(123))));
}

#[test]
fn test_deserialize_struct() {
    let mut reader = Cursor::new(b"d8:int_propi123e11:string_prop3:baze");
    let shape = Shape::Record(vec![
        ("int_prop".to_string(), Shape::Int),
        ("string_prop".to_string(), Shape::Text),
    ]);
    let result = from_reader(&mut reader, &shape).unwrap();
    assert_eq!(
        result,
        Value::Record(vec![
            ("int_prop".to_string(), Value::Int(123)),
            ("string_prop".to_string(), text("baz")),
        ])
    );
}

#[test]
fn trailing_data_is_kept_in_the_error() {
    let mut reader = Cursor::new(b"i123e123");
    match from_reader(&mut reader, &Shape::Int) {
        Err(Error::TrailingData(rest)) => assert_eq!(rest, b"123"),
        other => panic!("unexpected: {:?}", other),
    }
}

#[test]
fn truncated_byte_string_is_an_io_error() {
    let mut reader = Cursor::new(b"5:hel");
    let result = from_reader(&mut reader, &Shape::Bytes);
    assert!(matches!(result, Err(Error::IO(_))));
    let mut reader = Cursor::new(b"5:hel");
    let result = from_reader(&mut reader, &Shape::Text);
    assert!(matches!(result, Err(Error::IO(_))));
}

#[test]
fn three_elements_do_not_fit_a_pair() {
    let mut reader = Cursor::new(b"li1ei2ei3ee");
    let shape = Shape::Tuple(vec![Shape::Int, Shape::Int]);
    let result = from_reader(&mut reader, &shape);
    assert!(matches!(result, Err(Error::ExpectedEnd)));
}

#[test]
fn one_element_does_not_fill_a_pair() {
    let mut reader = Cursor::new(b"li1ee");
    let shape = Shape::Tuple(vec![Shape::Int, Shape::Int]);
    match from_reader(&mut reader, &shape) {
        Err(Error::Syntax(message)) => assert_eq!(message, "Unexpected end"),
        other => panic!("unexpected: {:?}", other),
    }
}

#[test]
fn the_empty_tuple_is_the_empty_list() {
    let mut reader = Cursor::new(b"le");
    let result = from_reader(&mut reader, &Shape::Tuple(vec![])).unwrap();
    assert_eq!(result, Value::List(vec![]));
    let mut reader = Cursor::new(b"li1ee");
    let result = from_reader(&mut reader, &Shape::Tuple(vec![]));
    assert!(matches!(result, Err(Error::ExpectedEnd)));
}

#[test]
fn a_list_without_its_end_is_an_error() {
    let mut reader = Cursor::new(b"li1e");
    let result = from_reader(&mut reader, &list_of(Shape::Int));
    assert!(matches!(result, Err(Error::EOF)));
    let mut reader = Cursor::new(b"d3:foo");
    let shape = Shape::Dict(Box::new(Shape::Text), Box::new(Shape::Text));
    assert!(matches!(from_reader(&mut reader, &shape), Err(Error::EOF)));
}

#[test]
fn the_end_token_is_no_value() {
    let mut reader = Cursor::new(b"e");
    match from_reader(&mut reader, &Shape::Any) {
        Err(Error::Syntax(message)) => assert_eq!(message, "Unexpected end"),
        other => panic!("unexpected: {:?}", other),
    }
}

#[test]
fn a_token_of_another_kind_is_refused() {
    let mut reader = Cursor::new(b"i1e");
    assert!(matches!(
        from_reader(&mut reader, &Shape::Text),
        Err(Error::ExpectedBytes)
    ));
    let mut reader = Cursor::new(b"i1e");
    assert!(matches!(
        from_reader(&mut reader, &list_of(Shape::Int)),
        Err(Error::ExpectedList)
    ));
    let mut reader = Cursor::new(b"4:spam");
    match from_reader(&mut reader, &Shape::Int) {
        Err(Error::Internal(message)) => {
            assert_eq!(message, "invalid type: expected an integer")
        }
        other => panic!("unexpected: {:?}", other),
    }
    let mut reader = Cursor::new(b"le");
    let shape = Shape::Record(vec![]);
    match from_reader(&mut reader, &shape) {
        Err(Error::Internal(message)) => {
            assert_eq!(message, "invalid type: expected a dictionary")
        }
        other => panic!("unexpected: {:?}", other),
    }
}

#[test]
fn an_unsigned_integer_is_not_negative() {
    let mut reader = Cursor::new(b"i42e");
    assert_eq!(
        from_reader(&mut reader, &Shape::UInt).unwrap(),
        Value::UInt(42)
    );
    let mut reader = Cursor::new(b"i-1e");
    match from_reader(&mut reader, &Shape::UInt) {
        Err(Error::Internal(message)) => {
            assert_eq!(message, "invalid value: expected an unsigned integer")
        }
        other => panic!("unexpected: {:?}", other),
    }
    let mut reader = Cursor::new(b"i18446744073709551615e");
    assert!(matches!(
        from_reader(&mut reader, &Shape::UInt),
        Err(Error::ParseInt(_))
    ));
}

#[test]
fn any_shape_takes_what_is_there() {
    let mut reader = Cursor::new(b"d3:keyli1e3:twoee");
    let result = from_reader(&mut reader, &Shape::Any).unwrap();
    assert_eq!(
        result,
        Value::Dict(vec![(
            Value::Bytes(b"key".to_vec()),
            Value::List(vec![Value::Int(1), Value::Bytes(b"two".to_vec())])
        )])
    );
}

#[test]
fn an_optional_field_may_be_left_out() {
    let shape = Shape::Record(vec![
        ("a".to_string(), Shape::Optional(Box::new(Shape::Int))),
        ("b".to_string(), Shape::Text),
        ("c".to_string(), Shape::Optional(Box::new(Shape::Int))),
    ]);
    let mut reader = Cursor::new(b"d1:b1:xe");
    assert_eq!(
        from_reader(&mut reader, &shape).unwrap(),
        Value::Record(vec![
            ("a".to_string(), Value::Absent),
            ("b".to_string(), text("x")),
            ("c".to_string(), Value::Absent),
        ])
    );
    let mut reader = Cursor::new(b"d1:ai1e1:b1:x1:ci2ee");
    assert_eq!(
        from_reader(&mut reader, &shape).unwrap(),
        Value::Record(vec![
            ("a".to_string(), Value::Present(Box::new(Value::Int(1)))),
            ("b".to_string(), text("x")),
            ("c".to_string(), Value::Present(Box::new(Value::Int(2)))),
        ])
    );
}

#[test]
fn a_record_wants_its_fields_in_order() {
    let shape = Shape::Record(vec![
        ("a".to_string(), Shape::Int),
        ("b".to_string(), Shape::Int),
    ]);
    let mut reader = Cursor::new(b"d1:ai1ee");
    match from_reader(&mut reader, &shape) {
        Err(Error::Internal(message)) => assert_eq!(message, "missing field"),
        other => panic!("unexpected: {:?}", other),
    }
    let mut reader = Cursor::new(b"d1:bi1e1:ai2ee");
    match from_reader(&mut reader, &shape) {
        Err(Error::Internal(message)) => assert_eq!(message, "missing field"),
        other => panic!("unexpected: {:?}", other),
    }
    let mut reader = Cursor::new(b"d1:ai1e1:bi2e1:ai3ee");
    match from_reader(&mut reader, &shape) {
        Err(Error::Internal(message)) => assert_eq!(message, "unexpected key"),
        other => panic!("unexpected: {:?}", other),
    }
    let mut reader = Cursor::new(b"d1:ai1e1:ai3e1:bi2ee");
    match from_reader(&mut reader, &shape) {
        Err(Error::Internal(message)) => assert_eq!(message, "unexpected key"),
        other => panic!("unexpected: {:?}", other),
    }
    let mut reader = Cursor::new(b"di1ei2ee");
    assert!(matches!(
        from_reader(&mut reader, &shape),
        Err(Error::ExpectedBytes)
    ));
}

#[test]
fn a_record_passes_over_keys_that_name_no_field() {
    let shape = Shape::Record(vec![
        ("a".to_string(), Shape::Int),
        ("b".to_string(), Shape::Optional(Box::new(Shape::Int))),
    ]);
    let mut reader = Cursor::new(b"d1:0le1:ai1e2:aad1:xi0ee1:bi2e1:ci3ee");
    assert_eq!(
        from_reader(&mut reader, &shape).unwrap(),
        Value::Record(vec![
            ("a".to_string(), Value::Int(1)),
            ("b".to_string(), Value::Present(Box::new(Value::Int(2)))),
        ])
    );
    let mut reader = Cursor::new(b"d1:ai1e1:ci3ee");
    assert_eq!(
        from_reader(&mut reader, &shape).unwrap(),
        Value::Record(vec![
            ("a".to_string(), Value::Int(1)),
            ("b".to_string(), Value::Absent),
        ])
    );
    let mut reader = Cursor::new(b"d1:ai1e1:cee");
    match from_reader(&mut reader, &shape) {
        Err(Error::Syntax(message)) => assert_eq!(message, "Unexpected end"),
        other => panic!("unexpected: {:?}", other),
    }
}

#[test]
fn a_record_of_one_field_reads_it_out_of_many() {
    let torrent = b"d8:announce35:https://torrent.ubuntu.com/announce7:comment4:text4:infod6:lengthi1eee";
    let shape = Shape::Record(vec![("announce".to_string(), Shape::Text)]);
    let mut reader = Cursor::new(torrent);
    let mut deserializer = Deserializer::from_buffer(&mut reader);
    assert_eq!(
        deserializer.deserialize(&shape).unwrap(),
        Value::Record(vec![(
            "announce".to_string(),
            text("https://torrent.ubuntu.com/announce")
        )])
    );
}

fn colour() -> Shape {
    Shape::Enum(vec![
        ("Red".to_string(), None),
        ("Grey".to_string(), Some(Shape::Int)),
        (
            "Rgb".to_string(),
            Some(Shape::Tuple(vec![Shape::Int, Shape::Int, Shape::Int])),
        ),
    ])
}

#[test]
fn a_unit_variant_is_its_tag() {
    let mut reader = Cursor::new(b"3:Red");
    assert_eq!(
        from_reader(&mut reader, &colour()).unwrap(),
        Value::Variant("Red".to_string(), None)
    );
}

#[test]
fn a_variant_with_a_payload_is_a_dict_of_one_entry() {
    let mut reader = Cursor::new(b"d4:Greyi7ee");
    assert_eq!(
        from_reader(&mut reader, &colour()).unwrap(),
        Value::Variant("Grey".to_string(), Some(Box::new(Value::Int(7))))
    );
    let mut reader = Cursor::new(b"d3:Rgbli1ei2ei3eee");
    assert_eq!(
        from_reader(&mut reader, &colour()).unwrap(),
        Value::Variant(
            "Rgb".to_string(),
            Some(Box::new(Value::List(vec![
                Value::Int(1),
                Value::Int(2),
                Value::Int(3)
            ])))
        )
    );
}

#[test]
fn a_variant_is_held_to_its_shape() {
    let mut reader = Cursor::new(b"4:Blue");
    match from_reader(&mut reader, &colour()) {
        Err(Error::Internal(message)) => assert_eq!(message, "unknown variant"),
        other => panic!("unexpected: {:?}", other),
    }
    let mut reader = Cursor::new(b"4:Grey");
    match from_reader(&mut reader, &colour()) {
        Err(Error::Internal(message)) => {
            assert_eq!(message, "invalid type: expected a variant with a payload")
        }
        other => panic!("unexpected: {:?}", other),
    }
    let mut reader = Cursor::new(b"d3:Redi1ee");
    match from_reader(&mut reader, &colour()) {
        Err(Error::Internal(message)) => {
            assert_eq!(message, "invalid type: expected a unit variant")
        }
        other => panic!("unexpected: {:?}", other),
    }
    let mut reader = Cursor::new(b"d4:Greyi7ei8ee");
    assert!(matches!(
        from_reader(&mut reader, &colour()),
        Err(Error::ExpectedEnd)
    ));
    let mut reader = Cursor::new(b"de");
    match from_reader(&mut reader, &colour()) {
        Err(Error::Syntax(message)) => assert_eq!(message, "Unexpected end"),
        other => panic!("unexpected: {:?}", other),
    }
    let mut reader = Cursor::new(b"i1e");
    assert!(matches!(
        from_reader(&mut reader, &colour()),
        Err(Error::ExpectedBytes)
    ));
}

#[test]
fn a_deserializer_leaves_the_reader_after_the_value() {
    let mut reader = Cursor::new(b"i1ei2e");
    let mut deserializer = Deserializer::from_reader(&mut reader);
    assert_eq!(deserializer.deserialize_any().unwrap(), Value::Int(1));
    assert_eq!(deserializer.deserialize_i64().unwrap(), Value::Int(2));
    assert_eq!(reader.remaining(), b"");
}

#[test]
fn input_is_followed_as_deep_as_the_limit() {
    let mut input = vec![b'l'; MAX_DEPTH];
    input.extend(vec![b'e'; MAX_DEPTH]);
    let mut reader = Cursor::new(&input);
    assert!(from_reader(&mut reader, &Shape::Any).is_ok());

    let mut input = vec![b'l'; MAX_DEPTH + 1];
    input.extend(vec![b'e'; MAX_DEPTH + 1]);
    let mut reader = Cursor::new(&input);
    assert!(matches!(
        from_reader(&mut reader, &Shape::Any),
        Err(Error::NestingTooDeep)
    ));

    let input = vec![b'l'; 100_000];
    let mut reader = Cursor::new(&input);
    assert!(matches!(
        from_reader(&mut reader, &Shape::Any),
        Err(Error::NestingTooDeep)
    ));
    let input = vec![b'd'; 100_000];
    let mut reader = Cursor::new(&input);
    assert!(from_reader(&mut reader, &Shape::Any).is_err());
}

#[test]
fn a_decoder_counts_the_levels_it_may_enter() {
    let mut reader = Cursor::new(b"lli1eee");
    let mut deserializer = Deserializer::from_reader(&mut reader);
    assert_eq!(deserializer.depth, MAX_DEPTH);
    deserializer.depth = 1;
    assert!(matches!(
        deserializer.deserialize_any(),
        Err(Error::NestingTooDeep)
    ));
    assert_eq!(deserializer.depth, 1);
    assert_eq!(reader.remaining(), b"li1eee");

    let mut reader = Cursor::new(b"i1e");
    let mut deserializer = Deserializer::from_reader(&mut reader);
    deserializer.depth = 0;
    assert_eq!(deserializer.deserialize_any().unwrap(), Value::Int(1));

    let mut reader = Cursor::new(b"i1e");
    let mut deserializer = Deserializer::from_reader(&mut reader);
    deserializer.depth = 0;
    let shape = Shape::Optional(Box::new(Shape::Int));
    assert!(matches!(
        deserializer.deserialize(&shape),
        Err(Error::NestingTooDeep)
    ));
    let mut reader = Cursor::new(b"d1:Vi1ee");
    let mut deserializer = Deserializer::from_reader(&mut reader);
    deserializer.depth = 0;
    let shape = Shape::Enum(vec![("V".to_string(), Some(Shape::Int))]);
    assert!(matches!(
        deserializer.deserialize(&shape),
        Err(Error::NestingTooDeep)
    ));
    assert_eq!(reader.remaining(), b"d1:Vi1ee");
}

#[test]
fn integers_on_the_wire_are_canonical() {
    for input in [&b"i-0e"[..], b"i007e", b"i+5e", b"li01ee"] {
        let mut reader = Cursor::new(input);
        match from_reader(&mut reader, &Shape::Any) {
            Err(Error::Syntax(message)) => {
                assert_eq!(message, "Integer is not in canonical form")
            }
            other => panic!("unexpected: {:?}", other),
        }
    }
    let mut reader = Cursor::new(b"05:hello");
    match from_reader(&mut reader, &Shape::Text) {
        Err(Error::Syntax(message)) => assert_eq!(message, "Length is not in canonical form"),
        other => panic!("unexpected: {:?}", other),
    }
}
