//! HTTP protocol versions.
use vstd::prelude::*;
use crate::text::str_eq;

verus! {

#[allow(non_camel_case_types)]
#[derive(Debug, Clone, Copy, PartialEq, Eq, Structural)]
pub enum Version {
    HTTP1_0,
    HTTP1_1,
    HTTP2,
}

/// The version that a request line names.
pub open spec fn version_from_str(s: Seq<char>) -> Option<Version> {
    if s == "HTTP/1.0"@ {
        Some(Version::HTTP1_0)
    } else if s == "HTTP/1.1"@ {
        Some(Version::HTTP1_1)
    } else if s == "HTTP/2"@ {
        Some(Version::HTTP2)
    } else {
        None
    }
}

impl Version {
    /// Reads a protocol version.
    pub fn parse(s: &str) -> (r: Option<Version>)
        ensures
            r == version_from_str(s@),
    {
        if str_eq(s, "HTTP/1.0") {
            Some(Version::HTTP1_0)
        } else if str_eq(s, "HTTP/1.1") {
            Some(Version::HTTP1_1)
        } else if str_eq(s, "HTTP/2") {
            Some(Version::HTTP2)
        } else {
            None
        }
    }
}

} // verus!
