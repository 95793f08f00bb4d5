//! The server's route table and the decisions it takes for each connection.
use vstd::prelude::*;
use std::time::Duration;
use crate::http::request::RequestError;
use crate::http::response::is_plain;
use crate::http::{HttpMethod, HttpResponse, Request};
use crate::routing::builder::RouteBuilder;
use crate::routing::route::{
    is_first_match, parse_path_spec, parse_query_spec, register_route, resolve_route, Route,
    RouteError,
};
use crate::routing::router::RouteGroup;
use crate::utils::{join_path, join_spec, path_part, query_part, split_path_query};

verus! {

#[derive(Debug, Clone)]
pub struct ServerConfig {
    pub pool_size: Option<usize>,
    pub read_timeout_ms: Option<Duration>,
    pub write_timeout_ms: Option<Duration>,
}

impl Default for ServerConfig {
    fn default() -> (r: ServerConfig)
        ensures
            r.pool_size is None,
            r.read_timeout_ms is None,
            r.write_timeout_ms is None,
    {
        ServerConfig { pool_size: None, read_timeout_ms: None, write_timeout_ms: None }
    }
}

#[derive(Debug)]
pub struct Server<H> {
    pub ip_addr: String,
    pub port: u16,
    pub routes: Vec<Route<H>>,
    pub config: ServerConfig,
}

impl<H> RouteBuilder<H> for Server<H> {
    type Error = RouteError;

    open spec fn route_table(&self) -> Seq<Route<H>> {
        self.routes@
    }

    open spec fn route_prefix(&self) -> Seq<char> {
        "/"@
    }

    open spec fn settings_kept(before: Self, after: Self) -> bool {
        &&& after.ip_addr == before.ip_addr
        &&& after.port == before.port
        &&& after.config == before.config
    }

    fn register(&mut self, path: &str, method: HttpMethod, handler: H) {
        let (stripped_path, _) = split_path_query(path);
        register_route(&mut self.routes, "/", stripped_path, method, handler);
    }
}

/// The response that a failed read is answered with; none when the connection is gone.
pub open spec fn read_error_response_status(err: RequestError) -> Option<u16> {
    match err {
        RequestError::ReadError => Some(500),
        RequestError::ParseError => Some(500),
        RequestError::InvalidRequest => Some(500),
        RequestError::RequestTooLarge => Some(413),
        RequestError::ConnectionClosed => None,
        RequestError::ConnectionTimedOut => None,
    }
}

impl<H> Server<H> {
    /// A server for `ip_addr` and `port`, without routes and with the default configuration.
    pub fn new(ip_addr: &str, port: u16) -> (r: Server<H>)
        ensures
            r.ip_addr@ == ip_addr@,
            r.port == port,
            r.routes@ == Seq::<Route<H>>::empty(),
            r.config.pool_size is None,
            r.config.read_timeout_ms is None,
            r.config.write_timeout_ms is None,
    {
        Server {
            ip_addr: ip_addr.to_string(),
            port,
            routes: Vec::new(),
            config: ServerConfig::default(),
        }
    }

    /// The same server with another configuration.
    pub fn with_config(self, config: ServerConfig) -> (r: Server<H>)
        ensures
            r.ip_addr == self.ip_addr,
            r.port == self.port,
            r.routes == self.routes,
            r.config == config,
    {
        Server { config, ..self }
    }

    /// Lets `config` register routes under `prefix` (without its query part) joined to `/`:
    /// `config` gets a group with that prefix that borrows this server's routes, and what the
    /// group leaves in them is this server's routes afterwards.
    pub fn group<F: FnOnce(&mut RouteGroup<H>)>(&mut self, prefix: &str, config: F)
        requires
            forall|g: &mut RouteGroup<H>| call_requires(config, (g,)),
        ensures
            final(self).ip_addr == old(self).ip_addr,
            final(self).port == old(self).port,
            final(self).config == old(self).config,
            exists|g: &mut RouteGroup<H>|
                #[trigger] call_ensures(config, (g,), ()) && g.prefix@ == join_spec(
                    "/"@,
                    path_part(prefix@),
                ) && g.routes@ == old(self).routes@ && final(self).routes@ == (*final(g.routes))@,
    {
        let (stripped, _) = split_path_query(prefix);
        let mut group = RouteGroup { prefix: join_path("/", stripped), routes: &mut self.routes };
        config(&mut group);
    }

    /// The response to send for what a handler returned: its response, or `500` when it failed.
    pub fn handler_response<E>(result: Result<HttpResponse, E>) -> (r: HttpResponse)
        ensures
            match result {
                Ok(resp) => r == resp,
                Err(_) => is_plain(r, 500),
            },
    {
        match result {
            Ok(resp) => resp,
            Err(_) => HttpResponse::internal_server_error(),
        }
    }

    /// The response that a request that could not be read is answered with, if any.
    pub fn read_error_response(err: RequestError) -> (r: Option<HttpResponse>)
        ensures
            match read_error_response_status(err) {
                Some(status) => r matches Some(resp) && is_plain(resp, status),
                None => r is None,
            },
    {
        match err {
            RequestError::ReadError | RequestError::ParseError | RequestError::InvalidRequest => {
                Some(HttpResponse::internal_server_error())
            },
            RequestError::RequestTooLarge => Some(HttpResponse::request_entity_too_large()),
            RequestError::ConnectionClosed | RequestError::ConnectionTimedOut => None,
        }
    }

    /// Finds the handler for a request and adds the parameters that its route binds to the
    /// request. When no route takes the request, the result is the response to send instead:
    /// 405 when the first route whose path matches has another method, 404 when none matches.
    pub fn route_request(&self, request: &mut Request) -> (r: Result<&H, HttpResponse>)
        ensures
            match r {
                Ok(h) => exists|i: int|
                    #[trigger] is_first_match(self.routes@, old(request).path@, i)
                        && self.routes@[i].method == old(request).method && *h
                        == self.routes@[i].handler && final(request).path_params@ == old(
                        request,
                    ).path_params@.union_prefer_right(
                        parse_path_spec(
                            path_part(self.routes@[i].path@),
                            path_part(old(request).path@),
                        ),
                    ) && final(request).query_params@ == old(
                        request,
                    ).query_params@.union_prefer_right(
                        parse_query_spec(query_part(old(request).path@)),
                    ),
                Err(resp) => {
                    &&& final(request).path_params@ == old(request).path_params@
                    &&& final(request).query_params@ == old(request).query_params@
                    &&& (is_plain(resp, 405) || is_plain(resp, 404))
                    &&& (resp.status == 405 <==> exists|i: int|
                        #[trigger] is_first_match(self.routes@, old(request).path@, i)
                            && self.routes@[i].method != old(request).method)
                    &&& (resp.status == 404 <==> forall|i: int|
                        0 <= i < self.routes@.len() ==> !is_first_match(
                            self.routes@,
                            old(request).path@,
                            i,
                        ))
                },
            },
            final(request).method == old(request).method,
            final(request).path@ == old(request).path@,
            final(request).version == old(request).version,
            final(request).headers@ == old(request).headers@,
            final(request).body@ == old(request).body@,
    {
        match resolve_route(&self.routes, request.path.as_str(), request.method) {
            Ok((route, m)) => {
                request.add_path_params(m.path_params);
                request.add_query_params(m.query_params);
                Ok(&route.handler)
            },
            Err(RouteError::MethodNotAllowed) => Err(HttpResponse::method_not_allowed()),
            Err(RouteError::NotFound) => Err(HttpResponse::not_found()),
        }
    }
}

} // verus!
