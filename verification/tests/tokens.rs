use tforge::bencode::tokens::{Token, TOKEN_DICT, TOKEN_END, TOKEN_INTEGER, TOKEN_LIST};

#[test]
fn test_token_try_from() {
    assert_eq!(Token::try_from(b'i').unwrap(), Token::Int);
    assert_eq!(Token::try_from(b'd').unwrap(), Token::Dict);
    assert_eq!(Token::try_from(b'l').unwrap(), Token::List);
    assert_eq!(Token::try_from(b'e').unwrap(), Token::End);

    let bytes = b"0123456789";
    for byte in bytes {
        assert_eq!(Token::try_from(*byte).unwrap(), Token::Bytes);
    }

    assert!(Token::try_from(b'x').is_err());
}

#[test]
fn test_token_try_into() {
    let result: u8 = Token::Int.try_into().unwrap();
    assert_eq!(result, TOKEN_INTEGER);

    let result: u8 = Token::Dict.try_into().unwrap();
    assert_eq!(result, TOKEN_DICT);

    let result: u8 = Token::List.try_into().unwrap();
    assert_eq!(result, TOKEN_LIST);

    let result: u8 = Token::End.try_into().unwrap();
    assert_eq!(result, TOKEN_END);

    let result = Token::Bytes.try_into();
    assert!(result.is_err());
}
