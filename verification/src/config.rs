//! The configuration records, read from TOML documents.

use vstd::prelude::*;
use vstd::utf8::encode_utf8;

verus! {

/// A parsed TOML document: the table of its top-level entries.
#[verifier::external_body]
pub struct Document {
    table: toml::Table,
}

/// What a document holds under a key, as far as the records here read it.
#[derive(Debug, PartialEq)]
pub enum Setting {
    /// The key is not there.
    Missing,
    /// A string.
    Text(String),
    /// An array: for each item its integer, where it is one.
    Array(Vec<Option<i64>>),
    /// A value of any other kind.
    Other,
}

/// The mathematical model of a [`Setting`].
pub enum SettingView {
    Missing,
    Text(Seq<char>),
    Array(Seq<Option<i64>>),
    Other,
}

impl View for Setting {
    type V = SettingView;

    open spec fn view(&self) -> SettingView {
        match self {
            Setting::Missing => SettingView::Missing,
            Setting::Text(t) => SettingView::Text(t@),
            Setting::Array(items) => SettingView::Array(items@),
            Setting::Other => SettingView::Other,
        }
    }
}

/// The top-level entries of the TOML document that `contents` is: each key
/// with the text of its value where that is a string, with the integers of
/// its items where it is an array (`None` for an item that is no integer),
/// and with `Other` where it is of another kind. `None` where `contents` is
/// no TOML document.
pub uninterp spec fn toml_document(contents: Seq<char>) -> Option<Map<Seq<char>, SettingView>>;

/// The entries that a parsed document holds, read in the same way.
pub uninterp spec fn document_entries(document: Document) -> Map<Seq<char>, SettingView>;

/// What the entries hold under the key.
pub open spec fn setting_of(entries: Map<Seq<char>, SettingView>, key: Seq<char>) -> SettingView {
    if entries.dom().contains(key) {
        entries[key]
    } else {
        SettingView::Missing
    }
}

/// `toml::from_str`, for a table: the entries of the document, or what the
/// parser says against it.
#[verifier::external_body]
fn parse_document(contents: &str) -> (r: Result<Document, String>)
    ensures
        r is Ok <==> toml_document(contents@) is Some,
        r matches Ok(document) ==> toml_document(contents@) == Some(document_entries(document)),
{
    match toml::from_str::<toml::Table>(contents) {
        Ok(table) => Ok(Document { table }),
        Err(e) => Err(e.to_string()),
    }
}

/// `toml::map::Map::get`: what the document holds under the key. The value
/// is told apart by its kind and handed over as plain values.
#[verifier::external_body]
fn lookup(document: &Document, key: &str) -> (s: Setting)
    ensures
        s@ == setting_of(document_entries(*document), key@),
{
    match document.table.get(key) {
        None => Setting::Missing,
        Some(toml::Value::String(text)) => Setting::Text(text.clone()),
        Some(toml::Value::Array(items)) => Setting::Array(
            items.iter().map(|item| match item {
                toml::Value::Integer(i) => Some(*i),
                _ => None,
            }).collect(),
        ),
        Some(_) => Setting::Other,
    }
}

/// Why a document is no configuration.
#[derive(Debug)]
pub enum ConfigError {
    /// The text is no TOML document; the parser's complaint is kept.
    Parse(String),
    /// A key that has to be there is not.
    MissingField,
    /// A value is not of the kind that its key asks for.
    InvalidType,
    /// A peer id of another length than 20 bytes; the length is kept.
    InvalidLength(usize),
}

/// The configuration of a client.
#[derive(Debug, PartialEq)]
pub struct ClientConfig {
    /// The 20 bytes by which the client names itself to trackers and peers.
    pub peer_id: [u8; 20],
}

/// The configuration of a server. It holds nothing yet.
#[derive(Debug, PartialEq)]
pub struct ServerConfig {}

/// The item is an integer in the range of a byte.
pub open spec fn is_byte(item: Option<i64>) -> bool {
    item matches Some(i) && 0 <= i <= 255
}

/// The bytes that the items are, where every one is a byte.
pub open spec fn array_bytes(items: Seq<Option<i64>>) -> Seq<u8> {
    Seq::new(items.len(), |k: int| items[k]->Some_0 as u8)
}

/// What a setting under `peer_id` makes of a configuration: the peer id,
/// or why there is none. A text has to be 20 bytes long; an array has to
/// hold 20 items, each an integer in the range of a byte.
pub open spec fn peer_id_of(setting: SettingView) -> std::result::Result<Seq<u8>, Refusal> {
    match setting {
        SettingView::Missing => Err(Refusal::MissingField),
        SettingView::Other => Err(Refusal::InvalidType),
        SettingView::Text(t) => if encode_utf8(t).len() == 20 {
            Ok(encode_utf8(t))
        } else {
            Err(Refusal::InvalidLength(encode_utf8(t).len()))
        },
        SettingView::Array(items) => if items.len() != 20 {
            Err(Refusal::InvalidLength(items.len()))
        } else if forall|k: int| 0 <= k < items.len() ==> is_byte(#[trigger] items[k]) {
            Ok(array_bytes(items))
        } else {
            Err(Refusal::InvalidType)
        },
    }
}

/// Why a setting makes no configuration.
pub enum Refusal {
    MissingField,
    InvalidType,
    InvalidLength(nat),
}

/// How the making of a configuration ended: its peer id, or why there is
/// none. The wording of a parser's complaint is left out.
pub open spec fn made(r: Result<ClientConfig, ConfigError>) -> Option<
    std::result::Result<Seq<u8>, Refusal>,
> {
    match r {
        Ok(c) => Some(Ok(c.peer_id@)),
        Err(ConfigError::MissingField) => Some(Err(Refusal::MissingField)),
        Err(ConfigError::InvalidType) => Some(Err(Refusal::InvalidType)),
        Err(ConfigError::InvalidLength(n)) => Some(Err(Refusal::InvalidLength(n as nat))),
        Err(ConfigError::Parse(_)) => None,
    }
}

impl ClientConfig {
    /// The configuration whose peer id is the setting under `peer_id`.
    pub fn from_setting(setting: &Setting) -> (r: Result<ClientConfig, ConfigError>)
        ensures
            made(r) == Some(peer_id_of(setting@)),
    {
        match setting {
            Setting::Missing => Err(ConfigError::MissingField),
            Setting::Other => Err(ConfigError::InvalidType),
            Setting::Text(text) => {
                let bytes = text.as_str().as_bytes();
                if bytes.len() != 20 {
                    return Err(ConfigError::InvalidLength(bytes.len()));
                }
                let mut peer_id = [0u8;20];
                let mut i: usize = 0;
                while i < 20
                    invariant
                        i <= 20,
                        bytes@.len() == 20,
                        forall|k: int| 0 <= k < i ==> peer_id@[k] == bytes@[k],
                    decreases 20 - i,
                {
                    peer_id[i] = bytes[i];
                    i = i + 1;
                }
                assert(peer_id@ =~= bytes@);
                Ok(ClientConfig { peer_id })
            },
            Setting::Array(items) => {
                if items.len() != 20 {
                    return Err(ConfigError::InvalidLength(items.len()));
                }
                let mut peer_id = [0u8;20];
                let mut i: usize = 0;
                while i < 20
                    invariant
                        i <= 20,
                        items@.len() == 20,
                        setting@ == SettingView::Array(items@),
                        forall|k: int| 0 <= k < i ==> is_byte(#[trigger] items@[k]),
                        forall|k: int| 0 <= k < i ==> peer_id@[k] == items@[k]->Some_0 as u8,
                    decreases 20 - i,
                {
                    match items[i] {
                        Some(value) => {
                            if value < 0 || value > 255 {
                                assert(!is_byte(items@[i as int]));
                                return Err(ConfigError::InvalidType);
                            }
                            peer_id[i] = value as u8;
                        },
                        None => {
                            assert(!is_byte(items@[i as int]));
                            return Err(ConfigError::InvalidType);
                        },
                    }
                    i = i + 1;
                }
                assert(peer_id@ =~= array_bytes(items@));
                Ok(ClientConfig { peer_id })
            },
        }
    }

    /// Reads the configuration from a TOML document. Keys other than
    /// `peer_id` are passed over.
    pub fn try_from(contents: &str) -> (r: Result<ClientConfig, ConfigError>)
        ensures
            toml_document(contents@) is None ==> r matches Err(ConfigError::Parse(_)),
            toml_document(contents@) matches Some(entries) ==> made(r) == Some(
                peer_id_of(setting_of(entries, "peer_id"@)),
            ),
    {
        match parse_document(contents) {
            Err(e) => Err(ConfigError::Parse(e)),
            Ok(document) => {
                let setting = lookup(&document, "peer_id");
                ClientConfig::from_setting(&setting)
            },
        }
    }

    /// The same as `try_from`, for an owned text.
    pub fn try_from_string(contents: String) -> (r: Result<ClientConfig, ConfigError>)
        ensures
            toml_document(contents@) is None ==> r matches Err(ConfigError::Parse(_)),
            toml_document(contents@) matches Some(entries) ==> made(r) == Some(
                peer_id_of(setting_of(entries, "peer_id"@)),
            ),
    {
        ClientConfig::try_from(contents.as_str())
    }
}

impl ServerConfig {
    /// Reads the configuration from a TOML document: every document is one.
    pub fn try_from(contents: &str) -> (r: Result<ServerConfig, ConfigError>)
        ensures
            toml_document(contents@) is Some ==> r is Ok,
            toml_document(contents@) is None ==> r matches Err(ConfigError::Parse(_)),
    {
        match parse_document(contents) {
            Err(e) => Err(ConfigError::Parse(e)),
            Ok(_) => Ok(ServerConfig {  }),
        }
    }
}

} // verus!
