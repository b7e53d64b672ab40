//! The messages of the wire protocol and their JSON text.

use crate::codec::{
    frame_remove, frame_set, json_head, json_quoted, next_object, quote, remove_text, set_text,
    shape_error, Fields, Parsed,
};
use crate::error::{KvError, Result};
use vstd::prelude::*;
use vstd::string::*;

verus! {

/// A request from a client.
#[derive(Debug)]
pub enum Request {
    /// Set the value of a key; on the wire the request is tagged `Set`.
    Put { key: String, value: String },
    /// Look a key up.
    Get { key: String },
    /// Remove a key.
    Remove { key: String },
}

/// The server's answer to one request.
#[derive(Debug)]
pub enum Response {
    /// The operation succeeded; a lookup carries the value it found. On
    /// the wire the response is tagged `Ok`.
    Success(Option<String>),
    /// The operation failed, with the error in words. On the wire the
    /// response is tagged `Err`.
    Failure(String),
}

/// A request as the contracts see it.
pub enum RequestView {
    Put { key: Seq<char>, value: Seq<char> },
    Get { key: Seq<char> },
    Remove { key: Seq<char> },
}

impl View for Request {
    type V = RequestView;

    open spec fn view(&self) -> RequestView {
        match *self {
            Request::Put { key, value } => RequestView::Put { key: key@, value: value@ },
            Request::Get { key } => RequestView::Get { key: key@ },
            Request::Remove { key } => RequestView::Remove { key: key@ },
        }
    }
}

/// A response as the contracts see it.
pub enum ResponseView {
    Success(Option<Seq<char>>),
    Failure(Seq<char>),
}

impl View for Response {
    type V = ResponseView;

    open spec fn view(&self) -> ResponseView {
        match *self {
            Response::Success(Some(value)) => ResponseView::Success(Some(value@)),
            Response::Success(None) => ResponseView::Success(None),
            Response::Failure(msg) => ResponseView::Failure(msg@),
        }
    }
}

/// The text of a `Get` request around the quoted key.
pub open spec fn get_text(key_q: Seq<char>) -> Seq<char> {
    "{\"Get\":{\"key\":"@ + key_q + "}}"@
}

/// The text of a request.
pub open spec fn request_text(request: RequestView) -> Seq<char> {
    match request {
        RequestView::Put { key, value } => set_text(json_quoted(key), json_quoted(value)),
        RequestView::Get { key } => get_text(json_quoted(key)),
        RequestView::Remove { key } => remove_text(json_quoted(key)),
    }
}

/// The text of a response.
pub open spec fn response_text(response: ResponseView) -> Seq<char> {
    match response {
        ResponseView::Success(None) => "{\"Ok\":null}"@,
        ResponseView::Success(Some(value)) => "{\"Ok\":"@ + json_quoted(value) + "}"@,
        ResponseView::Failure(msg) => "{\"Err\":"@ + json_quoted(msg) + "}"@,
    }
}

/// The request that a parsed object stands for: exactly one member,
/// tagged `Set` with the fields `key` and `value`, or `Get` or `Remove`
/// with the field `key`.
pub open spec fn request_of(entries: Seq<(Seq<char>, Fields)>) -> Option<RequestView> {
    if entries.len() != 1 {
        None
    } else if entries[0].0 == "Set"@ && entries[0].1.len() == 2 && entries[0].1[0].0 == "key"@
        && entries[0].1[1].0 == "value"@ {
        Some(RequestView::Put { key: entries[0].1[0].1, value: entries[0].1[1].1 })
    } else if entries[0].0 == "Get"@ && entries[0].1.len() == 1 && entries[0].1[0].0 == "key"@ {
        Some(RequestView::Get { key: entries[0].1[0].1 })
    } else if entries[0].0 == "Remove"@ && entries[0].1.len() == 1 && entries[0].1[0].0
        == "key"@ {
        Some(RequestView::Remove { key: entries[0].1[0].1 })
    } else {
        None
    }
}

/// What stands at the head of a stream of requests.
pub enum NextRequest {
    /// Nothing but whitespace is left.
    End,
    /// The bytes do not start with a request.
    Invalid,
    /// A request that takes up `used` bytes of the stream.
    Request { request: RequestView, used: nat },
}

/// The head of a stream of requests.
pub open spec fn request_head(bytes: Seq<u8>) -> NextRequest {
    match json_head(bytes) {
        Parsed::End => NextRequest::End,
        Parsed::Invalid => NextRequest::Invalid,
        Parsed::Object { entries, used } => match request_of(entries) {
            Some(request) => NextRequest::Request { request, used },
            None => NextRequest::Invalid,
        },
    }
}

/// Puts a `Get` request together from the JSON literal of the key.
pub fn frame_get(key_q: &str) -> (text: String)
    ensures
        text@ == get_text(key_q@),
{
    let mut text = String::from_str("{\"Get\":{\"key\":");
    text.append(key_q);
    text.append("}}");
    text
}

/// Encodes a request as JSON text. Succeeds on every request.
pub fn encode_request(request: &Request) -> (r: Result<String>)
    ensures
        r matches Ok(text) && text@ == request_text(request@),
{
    match request {
        Request::Put { key, value } => {
            let key_q = match quote(key.as_str()) {
                Ok(t) => t,
                Err(e) => {
                    return Err(KvError::Serde(e));
                },
            };
            let value_q = match quote(value.as_str()) {
                Ok(t) => t,
                Err(e) => {
                    return Err(KvError::Serde(e));
                },
            };
            Ok(frame_set(key_q.as_str(), value_q.as_str()))
        },
        Request::Get { key } => {
            match quote(key.as_str()) {
                Ok(key_q) => Ok(frame_get(key_q.as_str())),
                Err(e) => Err(KvError::Serde(e)),
            }
        },
        Request::Remove { key } => {
            match quote(key.as_str()) {
                Ok(key_q) => Ok(frame_remove(key_q.as_str())),
                Err(e) => Err(KvError::Serde(e)),
            }
        },
    }
}

/// Puts a success together from the JSON literal of the value it carries,
/// `None` for a success without a value.
pub fn frame_success(value_q: Option<&str>) -> (text: String)
    ensures
        text@ == (match value_q {
            None => "{\"Ok\":null}"@,
            Some(q) => "{\"Ok\":"@ + q@ + "}"@,
        }),
{
    match value_q {
        None => String::from_str("{\"Ok\":null}"),
        Some(q) => {
            let mut text = String::from_str("{\"Ok\":");
            text.append(q);
            text.append("}");
            text
        },
    }
}

/// Puts a failure together from the JSON literal of its message.
pub fn frame_failure(msg_q: &str) -> (text: String)
    ensures
        text@ == "{\"Err\":"@ + msg_q@ + "}"@,
{
    let mut text = String::from_str("{\"Err\":");
    text.append(msg_q);
    text.append("}");
    text
}

/// Encodes a response as JSON text. Succeeds on every response.
pub fn encode_response(response: &Response) -> (r: Result<String>)
    ensures
        r matches Ok(text) && text@ == response_text(response@),
{
    match response {
        Response::Success(None) => Ok(frame_success(None)),
        Response::Success(Some(value)) => {
            match quote(value.as_str()) {
                Ok(q) => Ok(frame_success(Some(q.as_str()))),
                Err(e) => Err(KvError::Serde(e)),
            }
        },
        Response::Failure(msg) => {
            match quote(msg.as_str()) {
                Ok(q) => Ok(frame_failure(q.as_str())),
                Err(e) => Err(KvError::Serde(e)),
            }
        },
    }
}

/// What a response means to the client that sent the request: the value
/// of a success, or the failure as an error in words.
pub fn result_of_response(response: Response) -> (r: Result<Option<String>>)
    ensures
        match response {
            Response::Success(value) => r == Ok::<Option<String>, KvError>(value),
            Response::Failure(msg) => r matches Err(KvError::StringError(m)) && m == msg,
        },
{
    match response {
        Response::Success(value) => Ok(value),
        Response::Failure(msg) => Err(KvError::StringError(msg)),
    }
}

/// Reads a parsed object as a request.
pub fn request_from_object(object: &Vec<(String, Vec<(String, String)>)>) -> (r: Option<Request>)
    ensures
        match r {
            Some(request) => request_of(object.deep_view()) == Some(request@),
            None => request_of(object.deep_view()) is None,
        },
{
    let ghost entries = object.deep_view();
    if object.len() != 1 {
        return None;
    }
    let tag: &String = &object[0].0;
    let fields: &Vec<(String, String)> = &object[0].1;
    assert(forall|i: int|
        0 <= i < fields.len() ==> #[trigger] fields.deep_view()[i] == (fields[i].0@, fields[i].1@));
    let set_tag = String::from_str("Set");
    let get_tag = String::from_str("Get");
    let remove_tag = String::from_str("Remove");
    let key_name = String::from_str("key");
    let value_name = String::from_str("value");
    if *tag == set_tag && fields.len() == 2 && fields[0].0 == key_name && fields[1].0
        == value_name {
        Some(Request::Put { key: fields[0].1.clone(), value: fields[1].1.clone() })
    } else if *tag == get_tag && fields.len() == 1 && fields[0].0 == key_name {
        Some(Request::Get { key: fields[0].1.clone() })
    } else if *tag == remove_tag && fields.len() == 1 && fields[0].0 == key_name {
        Some(Request::Remove { key: fields[0].1.clone() })
    } else {
        None
    }
}

/// Reads the request at the head of a stream of requests and says how
/// many bytes it takes up; `None` at the end of the stream.
pub fn next_request(bytes: &[u8]) -> (r: Result<Option<(Request, usize)>>)
    ensures
        match r {
            Ok(Some((request, used))) => request_head(bytes@) == (NextRequest::Request {
                request: request@,
                used: used as nat,
            }) && 0 < used <= bytes@.len(),
            Ok(None) => request_head(bytes@) is End,
            Err(e) => request_head(bytes@) is Invalid && e is Serde,
        },
{
    match next_object(bytes) {
        Err(e) => Err(KvError::Serde(e)),
        Ok(None) => Ok(None),
        Ok(Some((object, used))) => match request_from_object(&object) {
            Some(request) => Ok(Some((request, used))),
            None => Err(KvError::Serde(shape_error("not a Set, Get or Remove request"))),
        },
    }
}

} // verus!
