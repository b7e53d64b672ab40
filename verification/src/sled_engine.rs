//! What the engine on top of sled decides once the database has answered.

use crate::error::{KvError, Result};
use vstd::prelude::*;
use vstd::utf8::{decode_utf8, valid_utf8};

verus! {

/// Calls `String::from_utf8`: the string that the bytes encode, or the
/// error for bytes that are not valid UTF-8.
#[verifier::external_body]
fn string_from_utf8(bytes: Vec<u8>) -> (r: std::result::Result<String, std::string::FromUtf8Error>)
    ensures
        r is Ok <==> valid_utf8(bytes@),
        r matches Ok(s) ==> s@ == decode_utf8(bytes@),
{
    String::from_utf8(bytes)
}

/// The answer to a lookup, given the bytes that the database holds for the
/// key: absent for none, the string they encode, or an error where they
/// are not UTF-8.
pub fn stored_value(found: Option<Vec<u8>>) -> (r: Result<Option<String>>)
    ensures
        match found {
            None => r matches Ok(None),
            Some(bytes) => if valid_utf8(bytes@) {
                r matches Ok(Some(s)) && s@ == decode_utf8(bytes@)
            } else {
                r matches Err(KvError::Utf8(_))
            },
        },
{
    match found {
        None => Ok(None),
        Some(bytes) => match string_from_utf8(bytes) {
            Ok(s) => Ok(Some(s)),
            Err(e) => Err(KvError::Utf8(e)),
        },
    }
}

/// The answer to a removal, given whether the database held the key:
/// `KeyNotFound` where it did not.
pub fn removal_outcome(held: bool) -> (r: Result<()>)
    ensures
        held ==> r is Ok,
        !held ==> r matches Err(KvError::KeyNotFound),
{
    if held {
        Ok(())
    } else {
        Err(KvError::KeyNotFound)
    }
}

} // verus!
