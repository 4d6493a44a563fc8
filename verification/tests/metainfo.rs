use tforge::bencode::deserializer::from_reader;
use tforge::bencode::error::Error;
use tforge::bencode::reader::Cursor;
use tforge::bencode::serializer::from_writer;
use tforge::bencode::value::Value;
use tforge::metainfo::pieces_bytes;
use tforge::metainfo::{File, FileInfo, Info, MetaInfo};

fn encoded(meta_info: &MetaInfo) -> Vec<u8> {
    let mut buffer = Vec::new();
    let mut writer = from_writer(&mut buffer);
    writer.serialize(&meta_info.to_value()).unwrap();
    buffer
}

fn decoded(bytes: &[u8]) -> Result<MetaInfo, Error> {
    let mut reader = Cursor::new(bytes);
    let value = from_reader(&mut reader, &MetaInfo::shape())?;
    MetaInfo::from_value(&value)
}

#[test]
fn test_bencode_single_file() {
    let meta_info = MetaInfo {
        announce: "http://example.com/announce".to_string(),
        announce_list: Some(vec![vec!["http://example.com/announce".to_string()]]),
        comment: Some("comment".to_string()),
        created_by: Some("created_by".to_string()),
        creation_date: Some(123),
        encoding: Some("UTF-8".to_string()),
        info: Info {
            file_info: FileInfo::SingleFile { length: 123 },
            name: "name".to_string(),
            piece_length: 123,
            pieces: vec![
                b"aaaaaaaaaaaaaaaaaaaa".to_owned(),
                b"bbbbbbbbbbbbbbbbbbbb".to_owned(),
            ],
        },
    };

    let buffer = encoded(&meta_info);
    let decoded_meta_info = decoded(&buffer).unwrap();

    assert_eq!(meta_info, decoded_meta_info);
}

#[test]
fn test_bencode_multi_file() {
    let meta_info = MetaInfo {
        announce: "http://example.com/announce".to_string(),
        announce_list: Some(vec![vec!["http://example.com/announce".to_string()]]),
        comment: Some("comment".to_string()),
        created_by: Some("created_by".to_string()),
        creation_date: Some(123),
        encoding: Some("UTF-8".to_string()),
        info: Info {
            file_info: FileInfo::MultiFile {
                files: vec![File {
                    length: 123,
                    path: vec!["path".to_string()],
                }],
            },
            name: "name".to_string(),
            piece_length: 123,
            pieces: vec![
                b"aaaaaaaaaaaaaaaaaaaa".to_owned(),
                b"bbbbbbbbbbbbbbbbbbbb".to_owned(),
            ],
        },
    };

    let buffer = encoded(&meta_info);
    let decoded_meta_info = decoded(&buffer).unwrap();

    assert_eq!(meta_info, decoded_meta_info);
}

const TORRENT: &[u8] = b"d8:announce35:https://torrent.ubuntu.com/announce13:announce-listll35:https://torrent.ubuntu.com/announceel40:https://ipv6.torrent.ubuntu.com/announceee7:comment29:Ubuntu CD releases.ubuntu.com10:created by13:mktorrent 1.113:creation datei1697466120e4:infod6:lengthi60e4:name32:ubuntu-23.10.1-desktop-amd64.iso12:piece lengthi20e6:pieces60:aaaaaaaaaaaaaaaaaaaabbbbbbbbbbbbbbbbbbbbccccccccccccccccccccee";

#[test]
fn a_torrent_is_decoded_field_by_field() {
    let meta_info = decoded(TORRENT).unwrap();
    assert_eq!(meta_info.announce, "https://torrent.ubuntu.com/announce");
    assert_eq!(
        meta_info.announce_list,
        Some(vec![
            vec!["https://torrent.ubuntu.com/announce".to_string()],
            vec!["https://ipv6.torrent.ubuntu.com/announce".to_string()],
        ])
    );
    assert_eq!(
        meta_info.comment,
        Some("Ubuntu CD releases.ubuntu.com".to_string())
    );
    assert_eq!(meta_info.created_by, Some("mktorrent 1.1".to_string()));
    assert_eq!(meta_info.creation_date, Some(1697466120));
    assert_eq!(meta_info.encoding, None);
    assert_eq!(
        meta_info.info.file_info,
        FileInfo::SingleFile { length: 60 }
    );
    assert_eq!(meta_info.info.name, "ubuntu-23.10.1-desktop-amd64.iso");
    assert_eq!(meta_info.info.piece_length, 20);
    assert_eq!(meta_info.info.pieces.len(), 3);
    assert_eq!(&meta_info.info.pieces[1], b"bbbbbbbbbbbbbbbbbbbb");
}

#[test]
fn a_torrent_is_encoded_byte_for_byte() {
    let meta_info = decoded(TORRENT).unwrap();
    assert_eq!(encoded(&meta_info), TORRENT);
}

#[test]
fn a_torrent_without_its_announce_is_refused() {
    let bytes = b"d4:infod6:lengthi1e4:name1:a12:piece lengthi1e6:pieces0:ee";
    match decoded(bytes) {
        Err(Error::Internal(message)) => assert_eq!(message, "missing field"),
        other => panic!("unexpected: {:?}", other),
    }
    let bytes = b"d8:announce1:ae";
    match decoded(bytes) {
        Err(Error::Internal(message)) => assert_eq!(message, "missing field"),
        other => panic!("unexpected: {:?}", other),
    }
}

#[test]
fn keys_that_the_metadata_does_not_know_are_passed_over() {
    let bytes = b"d8:announce1:a4:infod6:lengthi7e4:name1:a12:piece lengthi1e6:pieces0:7:privatei1ee8:url-listl1:uee";
    let meta_info = decoded(bytes).unwrap();
    assert_eq!(meta_info.announce, "a");
    assert_eq!(meta_info.info.file_info, FileInfo::SingleFile { length: 7 });
    assert_eq!(
        encoded(&meta_info),
        b"d8:announce1:a4:infod6:lengthi7e4:name1:a12:piece lengthi1e6:pieces0:ee"
    );
}

#[test]
fn a_description_needs_a_length_or_files() {
    let bytes = b"d8:announce1:a4:infod4:name1:a12:piece lengthi1e6:pieces0:ee";
    match decoded(bytes) {
        Err(Error::Internal(message)) => assert_eq!(message, "invalid torrent metadata"),
        other => panic!("unexpected: {:?}", other),
    }
}

#[test]
fn a_length_makes_a_single_file() {
    let bytes =
        b"d8:announce1:a4:infod5:filesle6:lengthi7e4:name1:a12:piece lengthi1e6:pieces0:ee";
    let meta_info = decoded(bytes).unwrap();
    assert_eq!(meta_info.info.file_info, FileInfo::SingleFile { length: 7 });
}

#[test]
fn a_value_of_another_form_is_no_metadata() {
    for value in [
        Value::Int(1),
        Value::Record(vec![]),
        Value::List(vec![]),
    ] {
        match MetaInfo::from_value(&value) {
            Err(Error::Internal(message)) => assert_eq!(message, "invalid torrent metadata"),
            other => panic!("unexpected: {:?}", other),
        }
        assert!(Info::from_value(&value).is_err());
        assert!(File::from_value(&value).is_err());
    }
}

#[test]
fn a_file_as_a_value() {
    let file = File {
        length: 5,
        path: vec!["dir".to_string(), "name".to_string()],
    };
    let value = file.to_value();
    assert_eq!(
        value,
        Value::Record(vec![
            ("length".to_string(), Value::UInt(5)),
            (
                "path".to_string(),
                Value::List(vec![
                    Value::Text("dir".to_string()),
                    Value::Text("name".to_string())
                ])
            ),
        ])
    );
    assert_eq!(File::from_value(&value).unwrap(), file);
    let mut buffer = Vec::new();
    from_writer(&mut buffer).serialize(&value).unwrap();
    assert_eq!(buffer, b"d6:lengthi5e4:pathl3:dir4:nameee");
    let mut reader = Cursor::new(&buffer);
    assert_eq!(from_reader(&mut reader, &File::shape()).unwrap(), value);
}

#[test]
fn the_shapes_declare_their_fields_sorted() {
    assert!(MetaInfo::shape().is_sorted());
    assert!(Info::shape().is_sorted());
    assert!(File::shape().is_sorted());
}

#[test]
fn pieces_are_joined_and_split() {
    let pieces = vec![[1u8; 20], [2u8; 20]];
    let bytes = pieces_bytes::serialize(&pieces);
    assert_eq!(bytes.len(), 40);
    assert_eq!(&bytes[..20], &[1u8; 20]);
    assert_eq!(&bytes[20..], &[2u8; 20]);
    assert_eq!(pieces_bytes::deserialize(&bytes), pieces);
    assert_eq!(pieces_bytes::serialize(&vec![]), b"");
    assert_eq!(pieces_bytes::deserialize(b""), Vec::<[u8; 20]>::new());
}

#[test]
fn bytes_that_make_no_whole_piece_are_dropped() {
    let mut bytes = vec![7u8; 45];
    bytes[20] = 8;
    let pieces = pieces_bytes::deserialize(&bytes);
    assert_eq!(pieces.len(), 2);
    assert_eq!(pieces[0], [7u8; 20]);
    assert_eq!(pieces[1][0], 8);
    assert_eq!(pieces_bytes::deserialize(&[1u8; 19]).len(), 0);
}

#[test]
fn whole_hashes_joined_are_the_input_again() {
    let bytes: Vec<u8> = (0..100u8).collect();
    let pieces = pieces_bytes::deserialize(&bytes);
    assert_eq!(pieces.len(), bytes.len() / 20);
    for (i, piece) in pieces.iter().enumerate() {
        assert_eq!(&piece[..], &bytes[20 * i..20 * i + 20]);
    }
    assert_eq!(pieces.concat(), bytes);
    assert_eq!(pieces_bytes::serialize(&pieces), bytes);
}
