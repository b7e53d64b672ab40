//! The server's side of a connection: which engine serves a directory, and
//! what is answered to a request.

use crate::common::{Request, Response, ResponseView};
use crate::engines::KvsEngine;
use crate::error::{renders, KvError, Result};
use crate::thread_pool::ThreadPool;
use vstd::prelude::*;
use vstd::string::*;

verus! {

/// A server: an engine and the pool that runs its connections.
pub struct KvsServer<E: KvsEngine, P: ThreadPool> {
    engine: E,
    pool: P,
}

/// Whether `response` answers an operation without a value that ended in
/// `result`.
pub open spec fn answers_unit(result: Result<()>, response: ResponseView) -> bool {
    match result {
        Ok(_) => response == ResponseView::Success(None),
        Err(e) => response matches ResponseView::Failure(msg) && renders(e, msg),
    }
}

/// Whether `response` answers a lookup that ended in `result`.
pub open spec fn answers_value(result: Result<Option<String>>, response: ResponseView) -> bool {
    match result {
        Ok(Some(value)) => response == ResponseView::Success(Some(value@)),
        Ok(None) => response == ResponseView::Success(None),
        Err(e) => response matches ResponseView::Failure(msg) && renders(e, msg),
    }
}

/// The answer to a `Set` or a `Remove` that ended in `result`.
pub fn response_of_unit(result: Result<()>) -> (response: Response)
    ensures
        answers_unit(result, response@),
{
    match result {
        Ok(_) => Response::Success(None),
        Err(e) => Response::Failure(e.message()),
    }
}

/// The answer to a `Get` that ended in `result`.
pub fn response_of_value(result: Result<Option<String>>) -> (response: Response)
    ensures
        answers_value(result, response@),
{
    match result {
        Ok(value) => Response::Success(value),
        Err(e) => Response::Failure(e.message()),
    }
}

impl<E: KvsEngine, P: ThreadPool> KvsServer<E, P> {
    /// A server on `engine` that runs its connections on `pool`.
    pub fn new(engine: E, pool: P) -> (server: Self)
        ensures
            server.engine_view() == engine,
            server.pool_view() == pool,
    {
        Self { engine, pool }
    }

    /// The engine of the server.
    pub closed spec fn engine_view(&self) -> E {
        self.engine
    }

    /// The pool of the server.
    pub closed spec fn pool_view(&self) -> P {
        self.pool
    }

    /// The engine of the server.
    pub fn engine(&self) -> (engine: &E)
        ensures
            *engine == self.engine_view(),
    {
        &self.engine
    }

    /// The pool of the server.
    pub fn pool(&self) -> (pool: &P)
        ensures
            *pool == self.pool_view(),
    {
        &self.pool
    }
}

/// Serves one request on `engine`: the request goes to the method that it
/// names, once, with its own strings, and the response answers what that
/// call returned.
pub fn handle_request<E: KvsEngine>(engine: &E, request: Request) -> (response: Response)
    ensures
        match request {
            Request::Get { key } => exists|result: Result<Option<String>>|
                call_ensures(E::get, (engine, key), result) && answers_value(result, response@),
            Request::Put { key, value } => exists|result: Result<()>|
                call_ensures(E::set, (engine, key, value), result) && answers_unit(
                    result,
                    response@,
                ),
            Request::Remove { key } => exists|result: Result<()>|
                call_ensures(E::remove, (engine, key), result) && answers_unit(result, response@),
        },
{
    match request {
        Request::Put { key, value } => {
            let result = engine.set(key, value);
            assert(call_ensures(E::set, (engine, key, value), result));
            response_of_unit(result)
        },
        Request::Get { key } => {
            let result = engine.get(key);
            assert(call_ensures(E::get, (engine, key), result));
            response_of_value(result)
        },
        Request::Remove { key } => {
            let result = engine.remove(key);
            assert(call_ensures(E::remove, (engine, key), result));
            response_of_unit(result)
        },
    }
}

/// The text of the error for a directory that another engine has used.
pub open spec fn wrong_engine_text(previous: Seq<char>, requested: Seq<char>) -> Seq<char> {
    "Wrong engine! Previously used '"@ + previous + "', but '"@ + requested + "' was requested."@
}

/// The text of the error for an engine name that is none.
pub open spec fn invalid_engine_text(name: Seq<char>) -> Seq<char> {
    "Invalid engine: "@ + name + ". Must be 'kvs' or 'sled'."@
}

/// The name that is checked: the requested one, else the one that the
/// directory records, else `kvs`.
pub open spec fn chosen_engine(requested: Option<String>, previous: Option<String>) -> Seq<char> {
    match (requested, previous) {
        (Some(e), _) => e@,
        (None, Some(p)) => p@,
        (None, None) => "kvs"@,
    }
}

/// Decides which engine serves a directory, given the one asked for and
/// the one that the directory records. The two must agree where both are
/// given, and the name must be `kvs` or `sled`.
pub fn resolve_engine(requested: Option<String>, previous: Option<String>) -> (r: Result<String>)
    ensures
        match r {
            Ok(name) => {
                &&& !(requested matches Some(e) && previous matches Some(p) && e@ != p@)
                &&& name@ == chosen_engine(requested, previous)
                &&& (name@ == "kvs"@ || name@ == "sled"@)
            },
            Err(KvError::StringError(msg)) => {
                if requested matches Some(e) && previous matches Some(p) && e@ != p@ {
                    msg@ == wrong_engine_text(previous->0@, requested->0@)
                } else {
                    &&& chosen_engine(requested, previous) != "kvs"@
                    &&& chosen_engine(requested, previous) != "sled"@
                    &&& msg@ == invalid_engine_text(chosen_engine(requested, previous))
                }
            },
            Err(_) => false,
        },
{
    let engine: String = match (requested, previous) {
        (Some(e), None) => e,
        (Some(e), Some(p)) => {
            if e != p {
                let mut msg = String::from_str("Wrong engine! Previously used '");
                msg.append(p.as_str());
                msg.append("', but '");
                msg.append(e.as_str());
                msg.append("' was requested.");
                return Err(KvError::StringError(msg));
            }
            e
        },
        (None, Some(p)) => p,
        (None, None) => String::from_str("kvs"),
    };
    let kvs_name = String::from_str("kvs");
    let sled_name = String::from_str("sled");
    if engine != kvs_name && engine != sled_name {
        let mut msg = String::from_str("Invalid engine: ");
        msg.append(engine.as_str());
        msg.append(". Must be 'kvs' or 'sled'.");
        return Err(KvError::StringError(msg));
    }
    Ok(engine)
}

} // verus!
