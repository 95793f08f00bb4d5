//! HTTP requests: the request line, the header lines and the body.
use vstd::prelude::*;
use crate::http::headers::{headers_map, parse_header_lines, string_views};
use crate::http::method::{method_from_str, HttpMethod};
use crate::http::version::{version_from_str, Version};
use crate::strmap::StrMap;
use crate::text::{parse_usize, split_whitespace, string_from_utf8, trim, trim_spec, usize_from_str, words};
use crate::utils::{path_part, split_path_query};

verus! {

#[derive(Debug, Clone, Copy, PartialEq, Eq, Structural)]
pub enum RequestError {
    ReadError,
    InvalidRequest,
    RequestTooLarge,
    ConnectionClosed,
    ConnectionTimedOut,
    ParseError,
}

/// How reading from the connection failed.
#[derive(Debug, Clone, Copy, PartialEq, Eq, Structural)]
pub enum ReadFailure {
    UnexpectedEof,
    TimedOut,
    ConnectionReset,
    ConnectionAborted,
    BrokenPipe,
    Other,
}

/// The largest amount of buffered input, in bytes, that a request may leave unread.
pub const MAX_BUFFERED: usize = 10485760;

/// The method, target and version that a request line names.
pub open spec fn request_line_spec(line: Seq<char>) -> Result<
    (HttpMethod, Seq<char>, Version),
    RequestError,
> {
    let w = words(line);
    if w.len() != 3 {
        Err(RequestError::ParseError)
    } else {
        match method_from_str(w[0]) {
            None => Err(RequestError::InvalidRequest),
            Some(m) => match version_from_str(w[2]) {
                None => Err(RequestError::InvalidRequest),
                Some(v) => Ok((m, w[1], v)),
            },
        }
    }
}

/// The body length that the headers announce: `content-length` read as a `usize`, else 0.
pub open spec fn content_length_spec(headers: Map<Seq<char>, Seq<char>>) -> int {
    if headers.contains_key("content-length"@) {
        match usize_from_str(headers["content-length"@]) {
            Some(n) => n,
            None => 0,
        }
    } else {
        0
    }
}

/// The error that a failed read stands for.
pub open spec fn read_failure_spec(f: ReadFailure) -> RequestError {
    match f {
        ReadFailure::UnexpectedEof => RequestError::ConnectionClosed,
        ReadFailure::TimedOut => RequestError::ConnectionTimedOut,
        ReadFailure::ConnectionReset => RequestError::ConnectionClosed,
        ReadFailure::ConnectionAborted => RequestError::ConnectionClosed,
        ReadFailure::BrokenPipe => RequestError::ConnectionClosed,
        ReadFailure::Other => RequestError::ReadError,
    }
}

impl RequestError {
    /// The error that a failed read stands for.
    pub fn from_read_failure(f: ReadFailure) -> (r: RequestError)
        ensures
            r == read_failure_spec(f),
    {
        match f {
            ReadFailure::UnexpectedEof => RequestError::ConnectionClosed,
            ReadFailure::TimedOut => RequestError::ConnectionTimedOut,
            ReadFailure::ConnectionReset => RequestError::ConnectionClosed,
            ReadFailure::ConnectionAborted => RequestError::ConnectionClosed,
            ReadFailure::BrokenPipe => RequestError::ConnectionClosed,
            ReadFailure::Other => RequestError::ReadError,
        }
    }
}

#[derive(Debug)]
pub struct Request {
    pub method: HttpMethod,
    pub path: String,
    pub version: Version,
    pub headers: StrMap,
    pub body: String,
    pub path_params: StrMap,
    pub query_params: StrMap,
}

impl Default for Request {
    fn default() -> (r: Request)
        ensures
            r.method == HttpMethod::GET,
            r.path@ == Seq::<char>::empty(),
            r.version == Version::HTTP1_1,
            r.headers@ == Map::<Seq<char>, Seq<char>>::empty(),
            r.body@ == Seq::<char>::empty(),
            r.path_params@ == Map::<Seq<char>, Seq<char>>::empty(),
            r.query_params@ == Map::<Seq<char>, Seq<char>>::empty(),
    {
        Request {
            method: HttpMethod::GET,
            path: String::new(),
            version: Version::HTTP1_1,
            headers: StrMap::new(),
            body: String::new(),
            path_params: StrMap::new(),
            query_params: StrMap::new(),
        }
    }
}

impl Request {
    /// Takes one line of the request head. A line that is blank once trimmed ends the head
    /// (the result is `true`); any other line is kept trimmed.
    pub fn accept_line(lines: &mut Vec<String>, line: &str) -> (done: bool)
        ensures
            done == (trim_spec(line@).len() == 0),
            done ==> final(lines)@ == old(lines)@,
            !done ==> final(lines)@.len() == old(lines)@.len() + 1 && final(lines)@.drop_last()
                == old(lines)@ && final(lines)@.last()@ == trim_spec(line@),
    {
        let t = trim(line);
        if t.is_empty() {
            true
        } else {
            let ghost before = lines@;
            lines.push(t.to_string());
            assert(lines@.drop_last() =~= before);
            false
        }
    }

    /// Reads the head of a request from its lines (the request line first, then the header
    /// lines) and from the number of bytes still buffered. The result holds the request
    /// with an empty body and the number of body bytes that the headers announce.
    pub fn read(lines: &[String], buffered: usize) -> (r: Result<(Request, usize), RequestError>)
        ensures
            lines@.len() == 0 ==> r == Err::<(Request, usize), RequestError>(
                RequestError::ConnectionClosed,
            ),
            lines@.len() > 0 && buffered > MAX_BUFFERED ==> r == Err::<(Request, usize), RequestError>(
                RequestError::RequestTooLarge,
            ),
            lines@.len() > 0 && buffered <= MAX_BUFFERED ==> match request_line_spec(lines@[0]@) {
                Err(e) => r == Err::<(Request, usize), RequestError>(e),
                Ok((m, target, v)) => match r {
                    Ok((req, n)) => {
                        &&& req.method == m
                        &&& req.path@ == path_part(target)
                        &&& req.version == v
                        &&& req.headers@ == headers_map(string_views(lines@).skip(1))
                        &&& req.body@ == Seq::<char>::empty()
                        &&& req.path_params@ == Map::<Seq<char>, Seq<char>>::empty()
                        &&& req.query_params@ == Map::<Seq<char>, Seq<char>>::empty()
                        &&& n == content_length_spec(req.headers@)
                    },
                    Err(_) => false,
                },
            },
    {
        if lines.len() == 0 {
            return Err(RequestError::ConnectionClosed);
        }
        if buffered > MAX_BUFFERED {
            return Err(RequestError::RequestTooLarge);
        }
        let (method, target, version) = match Self::parse_request_line(lines[0].as_str()) {
            Ok(parts) => parts,
            Err(e) => {
                return Err(e);
            },
        };
        let headers = parse_header_lines(lines, 1);
        let n = Self::content_length(&headers);
        let (path, _) = split_path_query(target);
        let req = Request {
            method,
            path: path.to_string(),
            version,
            headers,
            body: String::new(),
            path_params: StrMap::new(),
            query_params: StrMap::new(),
        };
        Ok((req, n))
    }

    /// Reads a request line: a method, a target and a version separated by whitespace.
    pub fn parse_request_line(line: &str) -> (r: Result<(HttpMethod, &str, Version), RequestError>)
        ensures
            match r {
                Ok((m, t, v)) => request_line_spec(line@) == Ok::<
                    (HttpMethod, Seq<char>, Version),
                    RequestError,
                >((m, t@, v)),
                Err(e) => request_line_spec(line@) == Err::<
                    (HttpMethod, Seq<char>, Version),
                    RequestError,
                >(e),
            },
    {
        let parts = split_whitespace(line);
        assert(parts@.len() == words(line@).len());
        if parts.len() != 3 {
            return Err(RequestError::ParseError);
        }
        assert(parts@[0]@ == words(line@)[0]);
        assert(parts@[1]@ == words(line@)[1]);
        assert(parts@[2]@ == words(line@)[2]);
        let method = match HttpMethod::parse(parts[0]) {
            Some(m) => m,
            None => {
                return Err(RequestError::InvalidRequest);
            },
        };
        let version = match Version::parse(parts[2]) {
            Some(v) => v,
            None => {
                return Err(RequestError::InvalidRequest);
            },
        };
        Ok((method, parts[1], version))
    }

    /// The body length that the headers announce.
    pub fn content_length(headers: &StrMap) -> (n: usize)
        ensures
            n == content_length_spec(headers@),
    {
        match headers.get("content-length") {
            Some(v) => match parse_usize(v) {
                Some(n) => n,
                None => 0,
            },
            None => 0,
        }
    }

    /// Turns the body bytes into text; they must be UTF-8.
    pub fn parse_body(bytes: Vec<u8>) -> (r: Result<String, RequestError>)
        ensures
            r is Ok <==> vstd::utf8::valid_utf8(bytes@),
            r matches Ok(s) ==> s@ == vstd::utf8::decode_utf8(bytes@),
            r matches Err(e) ==> e == RequestError::ParseError,
    {
        match string_from_utf8(bytes) {
            Some(s) => Ok(s),
            None => Err(RequestError::ParseError),
        }
    }

    /// The value of a query parameter.
    pub fn query(&self, key: &str) -> (r: Option<&str>)
        ensures
            match r {
                Some(v) => self.query_params@.contains_key(key@) && v@ == self.query_params@[key@],
                None => !self.query_params@.contains_key(key@),
            },
    {
        self.query_params.get(key)
    }

    /// The value of a path parameter.
    pub fn path(&self, key: &str) -> (r: Option<&str>)
        ensures
            match r {
                Some(v) => self.path_params@.contains_key(key@) && v@ == self.path_params@[key@],
                None => !self.path_params@.contains_key(key@),
            },
    {
        self.path_params.get(key)
    }

    /// Adds path parameters; a new value replaces the value of the same name.
    pub fn add_path_params(&mut self, path_params: StrMap)
        ensures
            final(self).path_params@ == old(self).path_params@.union_prefer_right(path_params@),
            final(self).query_params@ == old(self).query_params@,
            final(self).method == old(self).method,
            final(self).path@ == old(self).path@,
            final(self).version == old(self).version,
            final(self).headers@ == old(self).headers@,
            final(self).body@ == old(self).body@,
    {
        self.path_params.extend(path_params);
    }

    /// Adds query parameters; a new value replaces the value of the same name.
    pub fn add_query_params(&mut self, query_params: StrMap)
        ensures
            final(self).query_params@ == old(self).query_params@.union_prefer_right(query_params@),
            final(self).path_params@ == old(self).path_params@,
            final(self).method == old(self).method,
            final(self).path@ == old(self).path@,
            final(self).version == old(self).version,
            final(self).headers@ == old(self).headers@,
            final(self).body@ == old(self).body@,
    {
        self.query_params.extend(query_params);
    }
}

} // verus!
