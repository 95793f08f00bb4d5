//! HTTP request methods.
use vstd::prelude::*;
use crate::text::str_eq;

verus! {

#[allow(non_camel_case_types)]
#[derive(Debug, Clone, Copy, PartialEq, Eq, Structural)]
pub enum HttpMethod {
    GET,
    POST,
    PUT,
    PATCH,
    DELETE,
    OPTIONS,
    HEAD,
}

/// The method that a request line names; method names are case-sensitive.
pub open spec fn method_from_str(s: Seq<char>) -> Option<HttpMethod> {
    if s == "GET"@ {
        Some(HttpMethod::GET)
    } else if s == "POST"@ {
        Some(HttpMethod::POST)
    } else if s == "PUT"@ {
        Some(HttpMethod::PUT)
    } else if s == "PATCH"@ {
        Some(HttpMethod::PATCH)
    } else if s == "DELETE"@ {
        Some(HttpMethod::DELETE)
    } else if s == "OPTIONS"@ {
        Some(HttpMethod::OPTIONS)
    } else if s == "HEAD"@ {
        Some(HttpMethod::HEAD)
    } else {
        None
    }
}

impl HttpMethod {
    /// Reads a method name.
    pub fn parse(s: &str) -> (r: Option<HttpMethod>)
        ensures
            r == method_from_str(s@),
    {
        if str_eq(s, "GET") {
            Some(HttpMethod::GET)
        } else if str_eq(s, "POST") {
            Some(HttpMethod::POST)
        } else if str_eq(s, "PUT") {
            Some(HttpMethod::PUT)
        } else if str_eq(s, "PATCH") {
            Some(HttpMethod::PATCH)
        } else if str_eq(s, "DELETE") {
            Some(HttpMethod::DELETE)
        } else if str_eq(s, "OPTIONS") {
            Some(HttpMethod::OPTIONS)
        } else if str_eq(s, "HEAD") {
            Some(HttpMethod::HEAD)
        } else {
            None
        }
    }
}

} // verus!
