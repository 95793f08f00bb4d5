//! HTTP responses.
use vstd::prelude::*;
use crate::strmap::StrMap;

verus! {

#[derive(Debug)]
pub struct HttpResponse {
    pub status: u16,
    pub reason: String,
    pub headers: StrMap,
    pub body: String,
}

/// The reason phrase that goes with a status code.
pub open spec fn reason_for(status: u16) -> Seq<char> {
    if status == 200 {
        "OK"@
    } else if status == 404 {
        "Not Found"@
    } else if status == 405 {
        "Method Not Allowed"@
    } else if status == 413 {
        "Request Entity Too Large"@
    } else if status == 500 {
        "Internal Server Error"@
    } else {
        Seq::empty()
    }
}

/// `r` has the status `status`, its reason phrase, no headers and no body.
pub open spec fn is_plain(r: HttpResponse, status: u16) -> bool {
    &&& r.status == status
    &&& r.reason@ == reason_for(status)
    &&& r.headers@ == Map::<Seq<char>, Seq<char>>::empty()
    &&& r.body@ == Seq::<char>::empty()
}

impl HttpResponse {
    /// A response with the given status line and no headers and no body.
    fn with_status(status: u16, reason: &str) -> (r: HttpResponse)
        ensures
            r.status == status,
            r.reason@ == reason@,
            r.headers@ == Map::<Seq<char>, Seq<char>>::empty(),
            r.body@ == Seq::<char>::empty(),
    {
        HttpResponse { status, reason: reason.to_string(), headers: StrMap::new(), body: String::new() }
    }

    /// `200 OK`.
    pub fn ok() -> (r: HttpResponse)
        ensures
            is_plain(r, 200),
    {
        Self::with_status(200, "OK")
    }

    /// `404 Not Found`.
    pub fn not_found() -> (r: HttpResponse)
        ensures
            is_plain(r, 404),
    {
        Self::with_status(404, "Not Found")
    }

    /// `405 Method Not Allowed`.
    pub fn method_not_allowed() -> (r: HttpResponse)
        ensures
            is_plain(r, 405),
    {
        Self::with_status(405, "Method Not Allowed")
    }

    /// `413 Request Entity Too Large`.
    pub fn request_entity_too_large() -> (r: HttpResponse)
        ensures
            is_plain(r, 413),
    {
        Self::with_status(413, "Request Entity Too Large")
    }

    /// `500 Internal Server Error`.
    pub fn internal_server_error() -> (r: HttpResponse)
        ensures
            is_plain(r, 500),
    {
        Self::with_status(500, "Internal Server Error")
    }
}

} // verus!
