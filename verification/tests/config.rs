use tforge::config::{ClientConfig, ConfigError, ServerConfig, Setting};

#[test]
fn test_try_from_client_config() {
    let contents = r#"
            peer_id = "1234567890-abcedfghi"
        "#;
    let result = ClientConfig::try_from(contents);
    assert!(result.is_ok());
    assert_eq!(
        result.unwrap(),
        ClientConfig {
            peer_id: *b"1234567890-abcedfghi"
        }
    );
}

#[test]
fn test_try_from_client_config_invalid() {
    let contents = r#"
            peer_id = 1
        "#;
    let result = ClientConfig::try_from(contents);
    assert!(result.is_err());
}

#[test]
fn test_try_from_client_config_empty() {
    let contents = "";
    let result = ClientConfig::try_from(contents);
    assert!(result.is_err());
}

#[test]
fn test_try_from_server_config() {
    let contents = "";
    let result = ServerConfig::try_from(contents);
    assert!(result.is_ok());
    assert_eq!(result.unwrap(), ServerConfig {});
}

#[test]
fn each_failure_has_its_error() {
    assert!(matches!(
        ClientConfig::try_from(""),
        Err(ConfigError::MissingField)
    ));
    assert!(matches!(
        ClientConfig::try_from("peer_id = 1"),
        Err(ConfigError::InvalidType)
    ));
    assert!(matches!(
        ClientConfig::try_from("peer_id = \"short\""),
        Err(ConfigError::InvalidLength(5))
    ));
    assert!(matches!(
        ClientConfig::try_from("peer_id = "),
        Err(ConfigError::Parse(_))
    ));
    assert!(matches!(
        ServerConfig::try_from("= = ="),
        Err(ConfigError::Parse(_))
    ));
}

#[test]
fn other_keys_are_passed_over() {
    let contents = "port = 6881\npeer_id = \"-TF0001-abcdefghijkl\"\n";
    let config = ClientConfig::try_from(contents).unwrap();
    assert_eq!(&config.peer_id, b"-TF0001-abcdefghijkl");
    let owned = ClientConfig::try_from_string(contents.to_string()).unwrap();
    assert_eq!(owned, config);
}

#[test]
fn the_length_is_counted_in_bytes() {
    let text = "\u{e9}".repeat(10);
    let config = ClientConfig::from_setting(&Setting::Text(text.clone())).unwrap();
    assert_eq!(&config.peer_id[..], text.as_bytes());
    assert!(matches!(
        ClientConfig::from_setting(&Setting::Text("\u{e9}".repeat(20))),
        Err(ConfigError::InvalidLength(40))
    ));
    assert!(matches!(
        ClientConfig::from_setting(&Setting::Missing),
        Err(ConfigError::MissingField)
    ));
    assert!(matches!(
        ClientConfig::from_setting(&Setting::Other),
        Err(ConfigError::InvalidType)
    ));
}

#[test]
fn a_peer_id_may_be_an_array_of_twenty_bytes() {
    let contents = "peer_id = [49, 50, 51, 52, 53, 54, 55, 56, 57, 48, 45, 97, 98, 99, 101, 100, 102, 103, 104, 255]";
    let config = ClientConfig::try_from(contents).unwrap();
    assert_eq!(&config.peer_id[..19], b"1234567890-abcedfgh");
    assert_eq!(config.peer_id[19], 255);
    assert!(matches!(
        ClientConfig::try_from("peer_id = [1, 2, 3]"),
        Err(ConfigError::InvalidLength(3))
    ));
    let mut items = vec![Some(0i64); 20];
    items[7] = Some(256);
    assert!(matches!(
        ClientConfig::from_setting(&Setting::Array(items.clone())),
        Err(ConfigError::InvalidType)
    ));
    items[7] = Some(-1);
    assert!(matches!(
        ClientConfig::from_setting(&Setting::Array(items.clone())),
        Err(ConfigError::InvalidType)
    ));
    items[7] = None;
    assert!(matches!(
        ClientConfig::from_setting(&Setting::Array(items.clone())),
        Err(ConfigError::InvalidType)
    ));
    items[7] = Some(7);
    let config = ClientConfig::from_setting(&Setting::Array(items)).unwrap();
    assert_eq!(config.peer_id[7], 7);
    assert_eq!(config.peer_id[8], 0);
    let contents = "peer_id = [\"a\", 2, 3, 4, 5, 6, 7, 8, 9, 10, 11, 12, 13, 14, 15, 16, 17, 18, 19, 20]";
    assert!(matches!(
        ClientConfig::try_from(contents),
        Err(ConfigError::InvalidType)
    ));
}
