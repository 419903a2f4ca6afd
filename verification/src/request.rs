//! The request as the router sees it.

use vstd::prelude::*;
use crate::ascii::same_text;

verus! {

/// The request method, as far as routing tells methods apart.
#[derive(Clone, Copy, Debug, PartialEq, Eq, Structural)]
pub enum Method {
    Get,
    Post,
    /// Any method but `GET` and `POST`.
    Other,
}

/// The method that a method token names. Tokens are matched as they are
/// written: only `GET` and `POST` in capitals name those methods.
pub open spec fn method_named(token: Seq<char>) -> Method {
    if token == "GET"@ {
        Method::Get
    } else if token == "POST"@ {
        Method::Post
    } else {
        Method::Other
    }
}

impl Method {
    /// The method that the token of a request line names.
    pub fn from_token(token: &str) -> (method: Method)
        ensures
            method == method_named(token@),
    {
        if same_text(token, "GET") {
            Method::Get
        } else if same_text(token, "POST") {
            Method::Post
        } else {
            Method::Other
        }
    }
}

/// A request, as a mathematical value.
pub struct RequestView {
    pub method: Method,
    pub path: Seq<char>,
    pub query: Option<Seq<char>>,
    pub body: Seq<u8>,
}

/// One parsed request: its method, the path and the query of its target, and
/// its body. It is built once and read from then on.
#[derive(Debug)]
pub struct ParsedRequest {
    method: Method,
    path: String,
    query: Option<String>,
    body: Vec<u8>,
}

impl View for ParsedRequest {
    type V = RequestView;

    closed spec fn view(&self) -> RequestView {
        RequestView {
            method: self.method,
            path: self.path@,
            query: match self.query {
                Some(q) => Some(q@),
                None => None,
            },
            body: self.body@,
        }
    }
}

impl ParsedRequest {
    /// The request with these parts. `query` is what follows the question
    /// mark of the target, without the mark; `None` where the target has no
    /// question mark.
    pub fn new(method: Method, path: String, query: Option<String>, body: Vec<u8>) -> (request:
        ParsedRequest)
        ensures
            request@ == (RequestView {
                method,
                path: path@,
                query: match query {
                    Some(q) => Some(q@),
                    None => None,
                },
                body: body@,
            }),
    {
        ParsedRequest { method, path, query, body }
    }

    /// The method.
    pub fn method(&self) -> (method: Method)
        ensures
            method == self@.method,
    {
        self.method
    }

    /// The path of the target.
    pub fn path(&self) -> (path: &str)
        ensures
            path@ == self@.path,
    {
        self.path.as_str()
    }

    /// The query of the target, if it has one.
    pub fn query(&self) -> (query: Option<&str>)
        ensures
            match query {
                Some(q) => self@.query == Some(q@),
                None => self@.query is None,
            },
    {
        match &self.query {
            Some(q) => Some(q.as_str()),
            None => None,
        }
    }

    /// The body.
    pub fn body(&self) -> (body: &Vec<u8>)
        ensures
            body@ == self@.body,
    {
        &self.body
    }

    /// Gives up the request for its body.
    pub fn into_body(self) -> (body: Vec<u8>)
        ensures
            body@ == self@.body,
    {
        self.body
    }
}

} // verus!
