//! The session with the client's local API: what every request carries, and
//! the requests themselves as values for the caller to send.

use crate::auth::{basic_auth, discovered, Auth, AuthView, Os, Process};
use crate::error::ApiError;
use crate::text::{strip_leading, without_leading};
use vstd::prelude::*;

verus! {

/// The verb of a request.
#[derive(Debug, Clone, Copy, PartialEq, Eq, Structural)]
pub enum Method {
    Get,
    Delete,
    Post,
    Put,
    Patch,
}

/// A request to the client's API, ready to be sent. The body, where there is
/// one, is the JSON text to send.
#[derive(Debug, PartialEq, Eq)]
pub struct Request {
    pub method: Method,
    pub url: String,
    pub body: Option<String>,
}

/// What a `Request` holds, as mathematical values.
pub ghost struct RequestView {
    pub method: Method,
    pub url: Seq<char>,
    pub body: Option<Seq<char>>,
}

impl View for Request {
    type V = RequestView;

    open spec fn view(&self) -> RequestView {
        RequestView {
            method: self.method,
            url: self.url@,
            body: match self.body {
                Some(text) => Some(text@),
                None => None,
            },
        }
    }
}

/// The address of `endpoint` on the API that listens on `port`: the leading
/// slashes of the endpoint are dropped before it is joined on.
pub open spec fn url_of(port: Seq<char>, endpoint: Seq<char>) -> Seq<char> {
    "https://127.0.0.1:"@ + port + "/"@ + without_leading(endpoint, '/')
}

/// A session with the client's local API.
#[derive(Debug)]
pub struct Lcu {
    port: String,
    authorization: String,
}

/// What an `Lcu` holds, as mathematical values.
pub ghost struct LcuView {
    pub port: Seq<char>,
    pub authorization: Seq<char>,
}

impl View for Lcu {
    type V = LcuView;

    closed spec fn view(&self) -> LcuView {
        LcuView { port: self.port@, authorization: self.authorization@ }
    }
}

/// The session that the credentials `auth` open.
pub open spec fn session_of(auth: AuthView) -> LcuView {
    LcuView { port: auth.port, authorization: basic_auth(auth.key) }
}

impl Lcu {
    /// Looks the client up in `processes` and opens a session with it.
    pub fn new(os: Os, processes: &Vec<Process>) -> (lcu: Result<Lcu, ApiError>)
        ensures
            match discovered(os, processes.deep_view()) {
                Ok(auth) => lcu is Ok && lcu->Ok_0@ == session_of(auth),
                Err(error) => lcu == Err::<Lcu, ApiError>(error),
            },
    {
        match Auth::new(os, processes) {
            Ok(auth) => Ok(Lcu { authorization: auth.basic_auth_token(), port: auth.port() }),
            Err(error) => Err(error),
        }
    }

    /// The value of the `Authorization` header that every request carries.
    pub fn authorization(&self) -> (value: String)
        ensures
            value@ == self@.authorization,
    {
        self.authorization.clone()
    }

    /// The address of `endpoint` on the client's API.
    pub fn make_url(&self, endpoint: &str) -> (url: String)
        ensures
            url@ == url_of(self@.port, endpoint@),
    {
        let mut url = String::from_str("https://127.0.0.1:");
        url.append(self.port.as_str());
        url.append("/");
        url.append(strip_leading(endpoint, '/'));
        url
    }

    /// The request that reads `endpoint`.
    pub fn get(&self, endpoint: &str) -> (request: Request)
        ensures
            request@ == (RequestView {
                method: Method::Get,
                url: url_of(self@.port, endpoint@),
                body: None,
            }),
    {
        Request { method: Method::Get, url: self.make_url(endpoint), body: None }
    }

    /// The request that deletes `endpoint`.
    pub fn delete(&self, endpoint: &str) -> (request: Request)
        ensures
            request@ == (RequestView {
                method: Method::Delete,
                url: url_of(self@.port, endpoint@),
                body: None,
            }),
    {
        Request { method: Method::Delete, url: self.make_url(endpoint), body: None }
    }

    /// The request that posts the JSON text `body` to `endpoint`.
    pub fn post(&self, endpoint: &str, body: &str) -> (request: Request)
        ensures
            request@ == (RequestView {
                method: Method::Post,
                url: url_of(self@.port, endpoint@),
                body: Some(body@),
            }),
    {
        Request {
            method: Method::Post,
            url: self.make_url(endpoint),
            body: Some(body.to_owned()),
        }
    }

    /// The request that puts the JSON text `body` at `endpoint`.
    pub fn put(&self, endpoint: &str, body: &str) -> (request: Request)
        ensures
            request@ == (RequestView {
                method: Method::Put,
                url: url_of(self@.port, endpoint@),
                body: Some(body@),
            }),
    {
        Request {
            method: Method::Put,
            url: self.make_url(endpoint),
            body: Some(body.to_owned()),
        }
    }

    /// The request that patches `endpoint` with the JSON text `body`.
    pub fn patch(&self, endpoint: &str, body: &str) -> (request: Request)
        ensures
            request@ == (RequestView {
                method: Method::Patch,
                url: url_of(self@.port, endpoint@),
                body: Some(body@),
            }),
    {
        Request {
            method: Method::Patch,
            url: self.make_url(endpoint),
            body: Some(body.to_owned()),
        }
    }
}

} // verus!
