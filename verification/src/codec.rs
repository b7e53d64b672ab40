//! The record codec: how a command is written to a segment and read back.
//!
//! A record is one JSON object, `{"Set":{"key":K,"value":V}}` or
//! `{"Remove":{"key":K}}`, where `K` and `V` are JSON string literals.
//! Records follow each other without a delimiter.

use crate::error::{KvError, Result};
use std::collections::BTreeMap;
use vstd::prelude::*;
use vstd::slice::slice_subrange;
use vstd::string::*;
use vstd::utf8::encode_utf8;

verus! {

/// A command as it is logged.
#[derive(Debug)]
pub enum Command {
    /// Set the value of a key; the record is tagged `Set`.
    Put { key: String, value: String },
    /// Remove a key; the record is tagged `Remove`.
    Remove { key: String },
}

/// A command as the contracts see it.
pub enum CommandView {
    Put { key: Seq<char>, value: Seq<char> },
    Remove { key: Seq<char> },
}

impl View for Command {
    type V = CommandView;

    open spec fn view(&self) -> CommandView {
        match *self {
            Command::Put { key, value } => CommandView::Put { key: key@, value: value@ },
            Command::Remove { key } => CommandView::Remove { key: key@ },
        }
    }
}

/// The named fields of a JSON object whose values are all strings.
pub type Fields = Seq<(Seq<char>, Seq<char>)>;

/// What stands at the head of a byte stream of concatenated JSON values.
pub enum Parsed {
    /// Nothing but whitespace is left.
    End,
    /// The bytes do not start with an object of objects of strings.
    Invalid,
    /// An object whose members are objects of strings; `used` bytes of the
    /// stream make it up, leading whitespace included.
    Object { entries: Seq<(Seq<char>, Fields)>, used: nat },
}

/// The JSON string literal, quotes and escapes included, that
/// `serde_json::to_string` writes for a string.
pub uninterp spec fn json_quoted(s: Seq<char>) -> Seq<char>;

/// What `serde_json`'s stream deserializer yields first on a byte slice when
/// asked for a map from strings to maps from strings to strings.
pub uninterp spec fn json_head(bytes: Seq<u8>) -> Parsed;

/// Calls `serde_json::to_string` on a string. The call succeeds on every
/// string: serializing a `str` fails only where the writer does, and the
/// writer is a `Vec`. The text is the JSON literal of the string.
#[verifier::external_body]
pub(crate) fn quote(s: &str) -> (r: std::result::Result<String, serde_json::Error>)
    ensures
        r is Ok,
        r matches Ok(t) ==> t@ == json_quoted(s@),
{
    serde_json::to_string(s)
}

/// Runs `serde_json::Deserializer::from_slice(bytes).into_iter()` for one
/// step and reports `byte_offset()` with the value. The members come out in
/// the order of the `BTreeMap`s they were read into. The offset counts bytes
/// of the slice consumed by a value that was read, so it is positive and
/// within the slice.
#[verifier::external_body]
pub(crate) fn next_object(bytes: &[u8]) -> (r: std::result::Result<
    Option<(Vec<(String, Vec<(String, String)>)>, usize)>,
    serde_json::Error,
>)
    ensures
        match r {
            Ok(None) => json_head(bytes@) is End,
            Err(_) => json_head(bytes@) is Invalid,
            Ok(Some((object, used))) => json_head(bytes@) == (Parsed::Object {
                entries: object.deep_view(),
                used: used as nat,
            }) && 0 < used <= bytes@.len(),
        },
{
    let mut stream = serde_json::Deserializer::from_slice(bytes).into_iter::<
        BTreeMap<String, BTreeMap<String, String>>,
    >();
    match stream.next() {
        None => Ok(None),
        Some(Err(e)) => Err(e),
        Some(Ok(m)) => {
            let object = m.into_iter().map(|(k, v)| (k, v.into_iter().collect())).collect();
            Ok(Some((object, stream.byte_offset())))
        },
    }
}

/// Makes a `serde_json::Error` that carries `msg`, through
/// `serde::de::Error::custom`. Nothing is claimed of the value.
#[verifier::external_body]
pub(crate) fn shape_error(msg: &str) -> (e: serde_json::Error) {
    <serde_json::Error as serde::de::Error>::custom(msg)
}

/// The text of a `Set` record around the two quoted strings.
pub open spec fn set_text(key_q: Seq<char>, value_q: Seq<char>) -> Seq<char> {
    "{\"Set\":{\"key\":"@ + key_q + ",\"value\":"@ + value_q + "}}"@
}

/// The text of a `Remove` record around the quoted key.
pub open spec fn remove_text(key_q: Seq<char>) -> Seq<char> {
    "{\"Remove\":{\"key\":"@ + key_q + "}}"@
}

/// The text of a record.
pub open spec fn command_text(cmd: CommandView) -> Seq<char> {
    match cmd {
        CommandView::Put { key, value } => set_text(json_quoted(key), json_quoted(value)),
        CommandView::Remove { key } => remove_text(json_quoted(key)),
    }
}

/// The command that a parsed object stands for: exactly one member, tagged
/// `Set` with the fields `key` and `value`, or `Remove` with the field `key`.
pub open spec fn command_of(entries: Seq<(Seq<char>, Fields)>) -> Option<CommandView> {
    if entries.len() != 1 {
        None
    } else if entries[0].0 == "Set"@ && entries[0].1.len() == 2 && entries[0].1[0].0 == "key"@
        && entries[0].1[1].0 == "value"@ {
        Some(CommandView::Put { key: entries[0].1[0].1, value: entries[0].1[1].1 })
    } else if entries[0].0 == "Remove"@ && entries[0].1.len() == 1 && entries[0].1[0].0
        == "key"@ {
        Some(CommandView::Remove { key: entries[0].1[0].1 })
    } else {
        None
    }
}

/// The command that `bytes` hold when they hold exactly one record, with
/// nothing but whitespace behind it.
pub open spec fn decoded(bytes: Seq<u8>) -> Option<CommandView> {
    match json_head(bytes) {
        Parsed::Object { entries, used } => if used <= bytes.len() && json_head(
            bytes.subrange(used as int, bytes.len() as int),
        ) is End {
            command_of(entries)
        } else {
            None
        },
        _ => None,
    }
}

/// Puts a `Set` record together from the JSON literals of key and value.
pub fn frame_set(key_q: &str, value_q: &str) -> (text: String)
    ensures
        text@ == set_text(key_q@, value_q@),
{
    let mut text = String::from_str("{\"Set\":{\"key\":");
    text.append(key_q);
    text.append(",\"value\":");
    text.append(value_q);
    text.append("}}");
    text
}

/// Puts a `Remove` record together from the JSON literal of the key.
pub fn frame_remove(key_q: &str) -> (text: String)
    ensures
        text@ == remove_text(key_q@),
{
    let mut text = String::from_str("{\"Remove\":{\"key\":");
    text.append(key_q);
    text.append("}}");
    text
}

/// Encodes a command as the text of its record. Succeeds on every command.
pub fn encode_command(cmd: &Command) -> (r: Result<String>)
    ensures
        r matches Ok(text) && text@ == command_text(cmd@),
{
    match cmd {
        Command::Put { key, value } => {
            let key_q = match quote(key.as_str()) {
                Ok(t) => t,
                Err(e) => {
                    return Err(KvError::Serde(e));
                },
            };
            let value_q = match quote(value.as_str()) {
                Ok(t) => t,
                Err(e) => {
                    return Err(KvError::Serde(e));
                },
            };
            Ok(frame_set(key_q.as_str(), value_q.as_str()))
        },
        Command::Remove { key } => {
            let key_q = match quote(key.as_str()) {
                Ok(t) => t,
                Err(e) => {
                    return Err(KvError::Serde(e));
                },
            };
            Ok(frame_remove(key_q.as_str()))
        },
    }
}

/// Reads a parsed object as a command.
pub fn command_from_object(object: &Vec<(String, Vec<(String, String)>)>) -> (r: Option<Command>)
    ensures
        match r {
            Some(cmd) => command_of(object.deep_view()) == Some(cmd@),
            None => command_of(object.deep_view()) is None,
        },
{
    let ghost entries = object.deep_view();
    if object.len() != 1 {
        return None;
    }
    let tag: &String = &object[0].0;
    let fields: &Vec<(String, String)> = &object[0].1;
    assert(forall|i: int|
        0 <= i < fields.len() ==> #[trigger] fields.deep_view()[i] == (fields[i].0@, fields[i].1@));
    let set_tag = String::from_str("Set");
    let remove_tag = String::from_str("Remove");
    let key_name = String::from_str("key");
    let value_name = String::from_str("value");
    if *tag == set_tag && fields.len() == 2 && fields[0].0 == key_name && fields[1].0
        == value_name {
        Some(Command::Put { key: fields[0].1.clone(), value: fields[1].1.clone() })
    } else if *tag == remove_tag && fields.len() == 1 && fields[0].0 == key_name {
        Some(Command::Remove { key: fields[0].1.clone() })
    } else {
        None
    }
}

/// Decodes bytes that hold exactly one record.
pub fn decode_command(bytes: &[u8]) -> (r: Result<Command>)
    ensures
        match r {
            Ok(cmd) => decoded(bytes@) == Some(cmd@),
            Err(e) => decoded(bytes@) is None && e is Serde,
        },
{
    match next_object(bytes) {
        Err(e) => Err(KvError::Serde(e)),
        Ok(None) => Err(KvError::Serde(shape_error("EOF while parsing a record"))),
        Ok(Some((object, used))) => {
            let rest = slice_subrange(bytes, used, bytes.len());
            match next_object(rest) {
                Ok(None) => match command_from_object(&object) {
                    Some(cmd) => Ok(cmd),
                    None => Err(KvError::Serde(shape_error("not a Set or Remove record"))),
                },
                Ok(Some(_)) => Err(KvError::Serde(shape_error("trailing characters"))),
                Err(_) => Err(KvError::Serde(shape_error("trailing characters"))),
            }
        },
    }
}

/// Whether two commands are the same.
pub fn same_command(a: &Command, b: &Command) -> (same: bool)
    ensures
        same == (a@ == b@),
{
    match (a, b) {
        (Command::Put { key: k1, value: v1 }, Command::Put { key: k2, value: v2 }) => *k1 == *k2
            && *v1 == *v2,
        (Command::Remove { key: k1 }, Command::Remove { key: k2 }) => *k1 == *k2,
        _ => false,
    }
}

/// Whether the text of a command, read back, gives the command.
pub open spec fn round_trips(cmd: CommandView) -> bool {
    decoded(encode_utf8(command_text(cmd))) == Some(cmd)
}

/// Encodes a command and reads the text back. Returns the text where
/// reading it gives the command again, and an error where it does not.
pub fn encode_round_trip(cmd: &Command) -> (r: Result<String>)
    ensures
        match r {
            Ok(text) => text@ == command_text(cmd@) && round_trips(cmd@),
            Err(e) => !round_trips(cmd@) && e is Serde,
        },
{
    let text = match encode_command(cmd) {
        Ok(text) => text,
        Err(e) => {
            return Err(e);
        },
    };
    match decode_command(text.as_str().as_bytes()) {
        Ok(back) => {
            if same_command(cmd, &back) {
                Ok(text)
            } else {
                Err(KvError::Serde(shape_error("the record does not read back")))
            }
        },
        Err(e) => Err(e),
    }
}

/// What a lookup yields for the record that the index points at: the value
/// of a `Set`.
pub open spec fn record_value(bytes: Seq<u8>) -> Option<Seq<char>> {
    match decoded(bytes) {
        Some(CommandView::Put { key, value }) => Some(value),
        _ => None,
    }
}

/// Decodes the record that the index points at and returns its value. A
/// `Remove` there means that index and log disagree.
pub fn value_of_record(bytes: &[u8]) -> (r: Result<Option<String>>)
    ensures
        match r {
            Ok(Some(value)) => record_value(bytes@) == Some(value@),
            Ok(None) => false,
            Err(KvError::UnexpectedCommandType) => decoded(bytes@) is Some && decoded(
                bytes@,
            )->0 is Remove,
            Err(e) => decoded(bytes@) is None && e is Serde,
        },
{
    match decode_command(bytes) {
        Ok(Command::Put { key, value }) => Ok(Some(value)),
        Ok(Command::Remove { key }) => Err(KvError::UnexpectedCommandType),
        Err(e) => Err(e),
    }
}

} // verus!
