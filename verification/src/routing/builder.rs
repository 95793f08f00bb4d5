//! Route registration: the builder interface shared by routers, route groups and servers,
//! and the checks on route paths.
use vstd::prelude::*;
use crate::http::HttpMethod;
use crate::routing::route::{registered, Route};
use crate::text::{contains_pair, has_pair, is_char, starts_with_char, trim_start_by, trim_start_char};
use crate::utils::{join_spec, path_part};

verus! {

#[derive(Debug)]
pub enum RouteBuilderError {
    EmptyPath,
    InvalidPath(String),
    DuplicateRoute { method: HttpMethod, path: String },
    InvalidParameter(String),
    MissingHandler,
}

/// Registering `path` under `prefix` with `method` and `handler` turned `before` into `after`;
/// the query part of `path` is dropped.
pub open spec fn registers<H>(
    before: Seq<Route<H>>,
    after: Seq<Route<H>>,
    prefix: Seq<char>,
    path: Seq<char>,
    method: HttpMethod,
    handler: H,
) -> bool {
    registered(before, after, join_spec(prefix, path_part(path)), method, handler)
}

/// Something that routes can be registered on.
pub trait RouteBuilder<H>: Sized {
    type Error;

    /// The routes registered so far, in the order in which they are tried.
    spec fn route_table(&self) -> Seq<Route<H>>;

    /// The prefix that registered paths are joined to.
    spec fn route_prefix(&self) -> Seq<char>;

    /// What the builder holds besides its routes and its prefix is the same in `before` and
    /// `after`.
    spec fn settings_kept(before: Self, after: Self) -> bool;

    /// Registers a route for `path` and `method`.
    fn register(&mut self, path: &str, method: HttpMethod, handler: H)
        ensures
            registers(
                old(self).route_table(),
                final(self).route_table(),
                old(self).route_prefix(),
                path@,
                method,
                handler,
            ),
            final(self).route_prefix() == old(self).route_prefix(),
            Self::settings_kept(*old(self), *final(self)),
    ;

    /// Registers a `GET` route.
    fn get(&mut self, path: &str, handler: H)
        ensures
            registers(
                old(self).route_table(),
                final(self).route_table(),
                old(self).route_prefix(),
                path@,
                HttpMethod::GET,
                handler,
            ),
            final(self).route_prefix() == old(self).route_prefix(),
            Self::settings_kept(*old(self), *final(self)),
    {
        self.register(path, HttpMethod::GET, handler);
    }

    /// Registers a `POST` route.
    fn post(&mut self, path: &str, handler: H)
        ensures
            registers(
                old(self).route_table(),
                final(self).route_table(),
                old(self).route_prefix(),
                path@,
                HttpMethod::POST,
                handler,
            ),
            final(self).route_prefix() == old(self).route_prefix(),
            Self::settings_kept(*old(self), *final(self)),
    {
        self.register(path, HttpMethod::POST, handler);
    }

    /// Registers a `PUT` route.
    fn put(&mut self, path: &str, handler: H)
        ensures
            registers(
                old(self).route_table(),
                final(self).route_table(),
                old(self).route_prefix(),
                path@,
                HttpMethod::PUT,
                handler,
            ),
            final(self).route_prefix() == old(self).route_prefix(),
            Self::settings_kept(*old(self), *final(self)),
    {
        self.register(path, HttpMethod::PUT, handler);
    }

    /// Registers a `PATCH` route.
    fn patch(&mut self, path: &str, handler: H)
        ensures
            registers(
                old(self).route_table(),
                final(self).route_table(),
                old(self).route_prefix(),
                path@,
                HttpMethod::PATCH,
                handler,
            ),
            final(self).route_prefix() == old(self).route_prefix(),
            Self::settings_kept(*old(self), *final(self)),
    {
        self.register(path, HttpMethod::PATCH, handler);
    }

    /// Registers a `DELETE` route.
    fn delete(&mut self, path: &str, handler: H)
        ensures
            registers(
                old(self).route_table(),
                final(self).route_table(),
                old(self).route_prefix(),
                path@,
                HttpMethod::DELETE,
                handler,
            ),
            final(self).route_prefix() == old(self).route_prefix(),
            Self::settings_kept(*old(self), *final(self)),
    {
        self.register(path, HttpMethod::DELETE, handler);
    }

    /// Registers an `OPTIONS` route.
    fn options(&mut self, path: &str, handler: H)
        ensures
            registers(
                old(self).route_table(),
                final(self).route_table(),
                old(self).route_prefix(),
                path@,
                HttpMethod::OPTIONS,
                handler,
            ),
            final(self).route_prefix() == old(self).route_prefix(),
            Self::settings_kept(*old(self), *final(self)),
    {
        self.register(path, HttpMethod::OPTIONS, handler);
    }

    /// Registers a `HEAD` route.
    fn head(&mut self, path: &str, handler: H)
        ensures
            registers(
                old(self).route_table(),
                final(self).route_table(),
                old(self).route_prefix(),
                path@,
                HttpMethod::HEAD,
                handler,
            ),
            final(self).route_prefix() == old(self).route_prefix(),
            Self::settings_kept(*old(self), *final(self)),
    {
        self.register(path, HttpMethod::HEAD, handler);
    }

    /// Registers a route for any method.
    fn add_route(&mut self, method: HttpMethod, path: &str, handler: H)
        ensures
            registers(
                old(self).route_table(),
                final(self).route_table(),
                old(self).route_prefix(),
                path@,
                method,
                handler,
            ),
            final(self).route_prefix() == old(self).route_prefix(),
            Self::settings_kept(*old(self), *final(self)),
    {
        self.register(path, method, handler);
    }
}

/// Checks a route path: it must be non-empty, start with `/` and hold no `//`.
pub fn validate_route_path(path: &str) -> (r: Result<(), RouteBuilderError>)
    ensures
        path@.len() == 0 ==> r == Err::<(), RouteBuilderError>(RouteBuilderError::EmptyPath),
        path@.len() > 0 && path@[0] != '/' ==> (r matches Err(RouteBuilderError::InvalidPath(m))
            && m@ == "Path must start with '/'"@),
        path@.len() > 0 && path@[0] == '/' && has_pair(path@, '/') ==> (r matches Err(
            RouteBuilderError::InvalidPath(m),
        ) && m@ == "Path cannot contain double slashes"@),
        path@.len() > 0 && path@[0] == '/' && !has_pair(path@, '/') ==> r is Ok,
{
    if path.is_empty() {
        return Err(RouteBuilderError::EmptyPath);
    }
    if !starts_with_char(path, '/') {
        return Err(RouteBuilderError::InvalidPath("Path must start with '/'".to_string()));
    }
    if contains_pair(path, '/') {
        return Err(RouteBuilderError::InvalidPath("Path cannot contain double slashes".to_string()));
    }
    Ok(())
}

/// `path` with its leading slashes replaced by a single `/`.
pub open spec fn normalize_spec(path: Seq<char>) -> Seq<char> {
    let t = trim_start_by(path, is_char('/'));
    if t.len() == 0 {
        seq!['/']
    } else {
        seq!['/'] + t
    }
}

/// Makes a path start with exactly one `/`.
pub fn normalize_path(path: &str) -> (r: String)
    ensures
        r@ == normalize_spec(path@),
{
    let t = trim_start_char(path, '/');
    proof {
        reveal_strlit("/");
    }
    let mut r = "/".to_string();
    assert(r@ =~= seq!['/']);
    if !t.is_empty() {
        r.append(t);
    }
    r
}

} // verus!
