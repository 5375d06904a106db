//! Types of the HTTP client service's API.
use vstd::prelude::*;

verus! {

/// HTTP methods available.
#[derive(Clone, Copy, Debug, PartialEq, Eq, Structural)]
pub enum Method {
    POST,
    GET,
    PATCH,
}

/// Settings for an HTTP request.
pub struct Options {
    pub method: Method,
    /// Header names and values, in the order they are sent.
    pub headers: Vec<(String, String)>,
    /// The request body, already serialized.
    pub body: Option<String>,
}

impl Options {
    /// A request with the default settings: `GET`, no headers, no body.
    pub fn new() -> (r: Options)
        ensures
            r.method == Method::GET,
            r.headers@.len() == 0,
            r.body is None,
    {
        Options { method: Method::GET, headers: Vec::new(), body: None }
    }
}

} // verus!
