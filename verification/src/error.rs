//! The engine's error taxonomy.

use crate::text::{decimal, push_decimal};
use vstd::prelude::*;
use vstd::string::*;

verus! {

/// `std::io::Error`, carried through as an opaque value.
#[verifier::external_type_specification]
#[verifier::external_body]
pub struct ExIoError(std::io::Error);

/// `serde_json::Error`, carried through as an opaque value.
#[verifier::external_type_specification]
#[verifier::external_body]
pub struct ExJsonError(serde_json::Error);

/// `sled::Error`, carried through as an opaque value.
#[verifier::external_type_specification]
#[verifier::external_body]
pub struct ExSledError(sled::Error);

/// `std::string::FromUtf8Error`, carried through as an opaque value.
#[verifier::external_type_specification]
#[verifier::external_body]
pub struct ExFromUtf8Error(std::string::FromUtf8Error);

/// Everything that an engine operation can fail with.
#[derive(Debug)]
pub enum KvError {
    /// A file or socket failure reported by the operating system.
    Io(std::io::Error),
    /// A record or a message that is not valid JSON of the expected shape.
    Serde(serde_json::Error),
    /// `remove` was asked for a key that the index does not hold.
    KeyNotFound,
    /// The index pointed at a record that is not a `Set`.
    UnexpectedCommandType,
    /// No read handle is registered for this generation.
    LogFileNotFound(u64),
    /// A failure of the sled database.
    Sled(sled::Error),
    /// Stored bytes that are not UTF-8.
    Utf8(std::string::FromUtf8Error),
    /// Any other failure, in words.
    StringError(String),
}

/// Result type of the engine's operations.
pub type Result<T> = std::result::Result<T, KvError>;

/// Renders a `std::io::Error` with its `Display` impl. Nothing is claimed of
/// the text.
#[verifier::external_body]
fn io_error_text(e: &std::io::Error) -> (text: String) {
    format!("{}", e)
}

/// Renders a `serde_json::Error` with its `Display` impl. Nothing is claimed
/// of the text.
#[verifier::external_body]
fn json_error_text(e: &serde_json::Error) -> (text: String) {
    format!("{}", e)
}

/// Renders a `sled::Error` with its `Display` impl. Nothing is claimed of
/// the text.
#[verifier::external_body]
fn sled_error_text(e: &sled::Error) -> (text: String) {
    format!("{}", e)
}

/// Renders a `std::string::FromUtf8Error` with its `Display` impl. Nothing
/// is claimed of the text.
#[verifier::external_body]
fn utf8_error_text(e: &std::string::FromUtf8Error) -> (text: String) {
    format!("{}", e)
}

/// What `message` renders: the whole text for the variants that carry no
/// opaque value, the fixed prefix for the others.
pub open spec fn plain_message(e: KvError) -> Seq<char> {
    match e {
        KvError::KeyNotFound => "Key not found"@,
        KvError::UnexpectedCommandType => "Unexpected command type"@,
        KvError::LogFileNotFound(gen) => "Log file not found for generation "@ + decimal(
            gen as nat,
        ),
        KvError::StringError(s) => s@,
        KvError::Io(_) => "IO error: "@,
        KvError::Serde(_) => "Serde error: "@,
        KvError::Sled(_) => "sled error: "@,
        KvError::Utf8(_) => "UTF-8 error: "@,
    }
}

/// Whether `text` is a rendering of `e`. For the variants that carry an
/// opaque error the text starts with a fixed prefix and continues with the
/// rendering of that error; for every other variant it is fixed exactly.
pub open spec fn renders(e: KvError, text: Seq<char>) -> bool {
    match e {
        KvError::Io(_) | KvError::Serde(_) | KvError::Sled(_) | KvError::Utf8(_) => plain_message(
            e,
        ).is_prefix_of(text),
        _ => text == plain_message(e),
    }
}

impl KvError {
    /// The human-readable rendering of the error.
    pub fn message(&self) -> (text: String)
        ensures
            renders(*self, text@),
    {
        match self {
            KvError::Io(e) => {
                let tail = io_error_text(e);
                let text = String::from_str("IO error: ").concat(tail.as_str());
                text
            },
            KvError::Serde(e) => {
                let tail = json_error_text(e);
                let text = String::from_str("Serde error: ").concat(tail.as_str());
                text
            },
            KvError::Sled(e) => {
                let tail = sled_error_text(e);
                let text = String::from_str("sled error: ").concat(tail.as_str());
                text
            },
            KvError::Utf8(e) => {
                let tail = utf8_error_text(e);
                let text = String::from_str("UTF-8 error: ").concat(tail.as_str());
                text
            },
            KvError::KeyNotFound => String::from_str("Key not found"),
            KvError::UnexpectedCommandType => String::from_str("Unexpected command type"),
            KvError::LogFileNotFound(gen) => {
                let mut text = String::from_str("Log file not found for generation ");
                push_decimal(&mut text, *gen);
                text
            },
            KvError::StringError(s) => s.clone(),
        }
    }
}

} // verus!
