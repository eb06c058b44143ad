use vstd::prelude::*;

use crate::engine::KvsEngine;
use crate::error::KvsError;

verus! {

/// A request of the wire protocol.
pub enum Req {
    Put { key: String, value: String },
    Remove { key: String },
    Get { key: String },
}

/// The answer to a `Get` request.
pub enum GetResponse {
    Success(Option<String>),
    Failure(String),
}

/// The answer to a `Set` request.
pub enum SetResponse {
    Success,
    Failure(String),
}

/// The answer to a `Remove` request.
pub enum RemoveResponse {
    Success,
    Failure(String),
}

/// The answer to one request, of the kind that matches the request.
pub enum Reply {
    Get(GetResponse),
    Put(SetResponse),
    Remove(RemoveResponse),
}

/// The response that carries an engine's answer to `get`: its value, or its error's message.
pub fn get_response(res: Result<Option<String>, KvsError>) -> (r: GetResponse)
    ensures
        match res {
            Ok(v) => r == GetResponse::Success(v),
            Err(e) => r matches GetResponse::Failure(m) && m@ == e.message_spec(),
        },
{
    match res {
        Ok(v) => GetResponse::Success(v),
        Err(e) => GetResponse::Failure(e.message()),
    }
}

/// The response that carries an engine's answer to `set`.
pub fn set_response(res: Result<(), KvsError>) -> (r: SetResponse)
    ensures
        match res {
            Ok(_) => r is Success,
            Err(e) => r matches SetResponse::Failure(m) && m@ == e.message_spec(),
        },
{
    match res {
        Ok(()) => SetResponse::Success,
        Err(e) => SetResponse::Failure(e.message()),
    }
}

/// The response that carries an engine's answer to `remove`.
pub fn remove_response(res: Result<(), KvsError>) -> (r: RemoveResponse)
    ensures
        match res {
            Ok(_) => r is Success,
            Err(e) => r matches RemoveResponse::Failure(m) && m@ == e.message_spec(),
        },
{
    match res {
        Ok(()) => RemoveResponse::Success,
        Err(e) => RemoveResponse::Failure(e.message()),
    }
}

/// A server that owns one engine and answers requests against it, one at a time.
pub struct KvsServer<E: KvsEngine> {
    engine: E,
}

impl<E: KvsEngine> KvsServer<E> {
    /// The engine that the server dispatches to.
    pub closed spec fn engine(&self) -> E {
        self.engine
    }

    pub fn new(engine: E) -> (s: Self)
        ensures
            s.engine() == engine,
    {
        KvsServer { engine }
    }

    /// Answers one request: `Get{key}` goes to the engine's `get(key)`, `Set{key, value}` to
    /// `set(key, value)`, `Remove{key}` to `remove(key)`, and the reply carries what the
    /// engine answered. An engine error becomes the response's error variant with its
    /// message; it does not end the session.
    pub fn dispatch(&mut self, req: Req) -> (r: Reply)
        ensures
            match req {
                Req::Get { key } => r matches Reply::Get(g) && exists|res: Result<Option<String>, KvsError>|
                    old(self).engine().get_answer(key@, res) && carries_get(g, res),
                Req::Put { key, value } => r matches Reply::Put(p) && exists|res: Result<(), KvsError>|
                    old(self).engine().set_answer(key@, value@, res) && carries_set(p, res),
                Req::Remove { key } => r matches Reply::Remove(d) && exists|res: Result<(), KvsError>|
                    old(self).engine().remove_answer(key@, res) && carries_remove(d, res),
            },
    {
        match req {
            Req::Get { key } => {
                let ghost k = key@;
                let res = self.engine.get(key);
                let g = get_response(res);
                assert(old(self).engine().get_answer(k, res) && carries_get(g, res));
                Reply::Get(g)
            },
            Req::Put { key, value } => {
                let ghost k = key@;
                let ghost v = value@;
                let res = self.engine.set(key, value);
                let p = set_response(res);
                assert(old(self).engine().set_answer(k, v, res) && carries_set(p, res));
                Reply::Put(p)
            },
            Req::Remove { key } => {
                let ghost k = key@;
                let res = self.engine.remove(key);
                let d = remove_response(res);
                assert(old(self).engine().remove_answer(k, res) && carries_remove(d, res));
                Reply::Remove(d)
            },
        }
    }
}

/// `g` carries the engine's answer `res` to a `get`: its value, or its error's message.
pub open spec fn carries_get(g: GetResponse, res: Result<Option<String>, KvsError>) -> bool {
    match res {
        Ok(v) => g == GetResponse::Success(v),
        Err(e) => g matches GetResponse::Failure(m) && m@ == e.message_spec(),
    }
}

/// `p` carries the engine's answer `res` to a `set`.
pub open spec fn carries_set(p: SetResponse, res: Result<(), KvsError>) -> bool {
    match res {
        Ok(_) => p is Success,
        Err(e) => p matches SetResponse::Failure(m) && m@ == e.message_spec(),
    }
}

/// `d` carries the engine's answer `res` to a `remove`.
pub open spec fn carries_remove(d: RemoveResponse, res: Result<(), KvsError>) -> bool {
    match res {
        Ok(_) => d is Success,
        Err(e) => d matches RemoveResponse::Failure(m) && m@ == e.message_spec(),
    }
}

} // verus!
