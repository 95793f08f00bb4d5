use rustwebserver::http::headers::parse_headers;
use rustwebserver::http::request::{ReadFailure, RequestError, MAX_BUFFERED};
use rustwebserver::http::{HttpMethod, HttpResponse, Request, Version};
use rustwebserver::routing::builder::{normalize_path, validate_route_path, RouteBuilder, RouteBuilderError};
use rustwebserver::routing::route::{
    match_route, parse_path, parse_query, register_route, resolve_route, Route, RouteError, RouteHandler,
};
use rustwebserver::routing::router::{RouteGroup, Router};
use rustwebserver::server::server::{Server, ServerConfig};
use rustwebserver::strmap::StrMap;
use rustwebserver::text::{
    contains_pair, find_char, parse_usize, split_char, split_once_char, split_whitespace, str_eq,
    string_from_utf8, to_lowercase, trim, trim_end_char, trim_start_char,
};
use rustwebserver::utils::{join_path, split_path_query, standardize};

fn map_of(pairs: &[(&str, &str)]) -> StrMap {
    StrMap::from_pairs(pairs.iter().map(|(k, v)| (k.to_string(), v.to_string())).collect())
}

fn ok_handler(_: &Request) -> std::io::Result<HttpResponse> {
    Ok(HttpResponse::ok())
}

fn other_handler(_: &Request) -> std::io::Result<HttpResponse> {
    Ok(HttpResponse::not_found())
}

fn lines(ls: &[&str]) -> Vec<String> {
    ls.iter().map(|l| l.to_string()).collect()
}

#[test]
fn trim_removes_unicode_whitespace() {
    assert_eq!(trim("  a b \t\n"), "a b");
    assert_eq!(trim("\u{3000}x\u{a0}"), "x");
    assert_eq!(trim("   "), "");
    assert_eq!(trim(""), "");
}

#[test]
fn trim_matches_leading_and_trailing() {
    assert_eq!(trim_start_char("///a/b/", '/'), "a/b/");
    assert_eq!(trim_end_char("/a/b///", '/'), "/a/b");
    assert_eq!(trim_start_char("////", '/'), "");
}

#[test]
fn split_on_char_keeps_empty_pieces() {
    assert_eq!(split_char("/a/b", '/'), vec!["", "a", "b"]);
    assert_eq!(split_char("", '/'), vec![""]);
    assert_eq!(split_char("a/", '/'), vec!["a", ""]);
    assert_eq!(split_char("x", '/'), vec!["x"]);
}

#[test]
fn split_once_and_find() {
    assert_eq!(split_once_char("a=b=c", '='), Some(("a", "b=c")));
    assert_eq!(split_once_char("abc", '='), None);
    assert_eq!(find_char("héllo", 'l'), Some(2));
    assert_eq!(find_char("abc", 'z'), None);
}

#[test]
fn split_whitespace_drops_empty_words() {
    assert_eq!(split_whitespace("  GET   /  HTTP/1.1 "), vec!["GET", "/", "HTTP/1.1"]);
    assert_eq!(split_whitespace("   "), Vec::<&str>::new());
    assert_eq!(split_whitespace("a\tb\nc"), vec!["a", "b", "c"]);
}

#[test]
fn pairs_and_equality_of_strings() {
    assert!(contains_pair("a//b", '/'));
    assert!(!contains_pair("a/b/", '/'));
    assert!(str_eq("abc", "abc"));
    assert!(!str_eq("abc", "abd"));
    assert!(!str_eq("ab", "abc"));
}

#[test]
fn parse_usize_follows_std() {
    assert_eq!(parse_usize("123"), Some(123));
    assert_eq!(parse_usize("+7"), Some(7));
    assert_eq!(parse_usize("0"), Some(0));
    assert_eq!(parse_usize(""), None);
    assert_eq!(parse_usize("+"), None);
    assert_eq!(parse_usize("-1"), None);
    assert_eq!(parse_usize("12a"), None);
    assert_eq!(parse_usize(" 12"), None);
    assert_eq!(parse_usize("99999999999999999999999"), None);
    assert_eq!(parse_usize(&usize::MAX.to_string()), Some(usize::MAX));
    for s in ["1", "42", "+0042", "x", "18446744073709551616"] {
        assert_eq!(parse_usize(s), s.parse::<usize>().ok());
    }
}

#[test]
fn lowercase_and_utf8_wrappers() {
    assert_eq!(to_lowercase("Content-TYPE"), "content-type");
    assert_eq!(to_lowercase("ÀÉ"), "àé");
    assert_eq!(string_from_utf8(vec![104, 105]), Some("hi".to_string()));
    assert_eq!(string_from_utf8(vec![0xff, 0xfe]), None);
}

#[test]
fn strmap_insert_replaces_and_get() {
    let mut m = StrMap::new();
    assert_eq!(m.get("a"), None);
    m.insert("a".to_string(), "1".to_string());
    m.insert("b".to_string(), "2".to_string());
    m.insert("a".to_string(), "3".to_string());
    assert_eq!(m.get("a"), Some("3"));
    assert_eq!(m.get("b"), Some("2"));
    assert_eq!(m, map_of(&[("b", "2"), ("a", "3")]));
}

#[test]
fn strmap_from_pairs_later_wins() {
    let m = map_of(&[("k", "1"), ("k", "2")]);
    assert_eq!(m.get("k"), Some("2"));
    assert_eq!(m, map_of(&[("k", "2")]));
}

#[test]
fn strmap_extend_prefers_new_values() {
    let mut m = map_of(&[("a", "1"), ("b", "2")]);
    m.extend(map_of(&[("b", "20"), ("c", "30")]));
    assert_eq!(m, map_of(&[("a", "1"), ("b", "20"), ("c", "30")]));
}

#[test]
fn strmap_equality_ignores_order_but_not_values() {
    assert_eq!(map_of(&[("a", "1"), ("b", "2")]), map_of(&[("b", "2"), ("a", "1")]));
    assert_ne!(map_of(&[("a", "1")]), map_of(&[("a", "2")]));
    assert_ne!(map_of(&[("a", "1")]), map_of(&[("a", "1"), ("b", "2")]));
    assert_eq!(StrMap::new(), StrMap::new());
}

#[test]
fn split_path_query_at_first_question_mark() {
    assert_eq!(split_path_query("/a/b?x=1?y=2"), ("/a/b", "x=1?y=2"));
    assert_eq!(split_path_query("/a/b"), ("/a/b", ""));
    assert_eq!(split_path_query("?q"), ("", "q"));
}

#[test]
fn join_path_uses_one_slash() {
    assert_eq!(join_path("/api", "/users"), "/api/users");
    assert_eq!(join_path("/api/", "users"), "/api/users");
    assert_eq!(join_path("/", "/debug/telemetry"), "/debug/telemetry");
    assert_eq!(join_path("/", "/"), "/");
    assert_eq!(join_path("", ""), "/");
    assert_eq!(join_path("/api", ""), "/api");
    assert_eq!(join_path("", "x"), "/x");
}

#[test]
fn join_path_is_associative_on_examples() {
    let cases = [("/api", "/v1", "/users"), ("/", "//", "x/"), ("a//", "", "/b"), ("", "/v1/", "")];
    for (a, b, c) in cases {
        assert_eq!(join_path(&join_path(a, b), c), join_path(a, &join_path(b, c)));
    }
}

#[test]
fn standardize_trims_and_lowercases() {
    assert_eq!(standardize("  Content-Length "), "content-length");
}

#[test]
fn method_and_version_names() {
    assert_eq!(HttpMethod::parse("GET"), Some(HttpMethod::GET));
    assert_eq!(HttpMethod::parse("OPTIONS"), Some(HttpMethod::OPTIONS));
    assert_eq!(HttpMethod::parse("get"), None);
    assert_eq!(HttpMethod::parse("TRACE"), None);
    assert_eq!(Version::parse("HTTP/1.1"), Some(Version::HTTP1_1));
    assert_eq!(Version::parse("HTTP/1.0"), Some(Version::HTTP1_0));
    assert_eq!(Version::parse("HTTP/2"), Some(Version::HTTP2));
    assert_eq!(Version::parse("HTTP/3"), None);
}

#[test]
fn headers_later_line_wins_and_lines_without_colon_are_skipped() {
    let h = parse_headers(&lines(&["Host: a", "garbage", "HOST:  b ", "X-Empty:"]));
    assert_eq!(h, map_of(&[("host", "b"), ("x-empty", "")]));
}

#[test]
fn request_line_parts() {
    assert_eq!(
        Request::parse_request_line("GET /a?b=1 HTTP/1.1"),
        Ok((HttpMethod::GET, "/a?b=1", Version::HTTP1_1))
    );
    assert_eq!(Request::parse_request_line("GET /a"), Err(RequestError::ParseError));
    assert_eq!(Request::parse_request_line("GET /a HTTP/1.1 extra"), Err(RequestError::ParseError));
    assert_eq!(Request::parse_request_line("FETCH /a HTTP/1.1"), Err(RequestError::InvalidRequest));
    assert_eq!(Request::parse_request_line("GET /a HTTP/9"), Err(RequestError::InvalidRequest));
    assert_eq!(Request::parse_request_line(""), Err(RequestError::ParseError));
}

#[test]
fn read_request_head() {
    let (req, n) = Request::read(
        &lines(&["POST /users?id=3 HTTP/1.1", "Content-Length: 5", "Host: x"]),
        10,
    )
    .unwrap();
    assert_eq!(req.method, HttpMethod::POST);
    assert_eq!(req.path, "/users");
    assert_eq!(req.version, Version::HTTP1_1);
    assert_eq!(req.headers.get("host"), Some("x"));
    assert_eq!(req.body, "");
    assert_eq!(req.query_params, StrMap::new());
    assert_eq!(n, 5);
}

#[test]
fn read_request_errors() {
    assert_eq!(Request::read(&[], 0).unwrap_err(), RequestError::ConnectionClosed);
    assert_eq!(
        Request::read(&lines(&["GET / HTTP/1.1"]), MAX_BUFFERED + 1).unwrap_err(),
        RequestError::RequestTooLarge
    );
    assert!(Request::read(&lines(&["GET / HTTP/1.1"]), MAX_BUFFERED).is_ok());
    assert_eq!(Request::read(&lines(&["GET /"]), 0).unwrap_err(), RequestError::ParseError);
    assert_eq!(Request::read(&lines(&["BREW / HTTP/1.1"]), 0).unwrap_err(), RequestError::InvalidRequest);
}

#[test]
fn content_length_defaults_to_zero() {
    assert_eq!(Request::content_length(&map_of(&[("content-length", "abc")])), 0);
    assert_eq!(Request::content_length(&StrMap::new()), 0);
    assert_eq!(Request::content_length(&map_of(&[("content-length", "12")])), 12);
}

#[test]
fn body_must_be_utf8() {
    assert_eq!(Request::parse_body(b"hello".to_vec()), Ok("hello".to_string()));
    assert_eq!(Request::parse_body(vec![0xc3]), Err(RequestError::ParseError));
    assert_eq!(Request::parse_body(Vec::new()), Ok(String::new()));
}

#[test]
fn head_lines_end_at_blank_line() {
    let mut ls = Vec::new();
    assert!(!Request::accept_line(&mut ls, "GET / HTTP/1.1\r\n"));
    assert!(!Request::accept_line(&mut ls, "Host: a\r\n"));
    assert!(Request::accept_line(&mut ls, "\r\n"));
    assert_eq!(ls, vec!["GET / HTTP/1.1".to_string(), "Host: a".to_string()]);
}

#[test]
fn read_failures_map_to_errors() {
    assert_eq!(RequestError::from_read_failure(ReadFailure::UnexpectedEof), RequestError::ConnectionClosed);
    assert_eq!(RequestError::from_read_failure(ReadFailure::TimedOut), RequestError::ConnectionTimedOut);
    assert_eq!(RequestError::from_read_failure(ReadFailure::ConnectionReset), RequestError::ConnectionClosed);
    assert_eq!(RequestError::from_read_failure(ReadFailure::ConnectionAborted), RequestError::ConnectionClosed);
    assert_eq!(RequestError::from_read_failure(ReadFailure::BrokenPipe), RequestError::ConnectionClosed);
    assert_eq!(RequestError::from_read_failure(ReadFailure::Other), RequestError::ReadError);
}

#[test]
fn request_parameters() {
    let mut req = Request::default();
    assert_eq!(req.method, HttpMethod::GET);
    assert_eq!(req.version, Version::HTTP1_1);
    assert_eq!(req.path(""), None);
    req.add_path_params(map_of(&[("id", "1")]));
    req.add_path_params(map_of(&[("id", "2"), ("x", "y")]));
    req.add_query_params(map_of(&[("q", "v")]));
    assert_eq!(req.path("id"), Some("2"));
    assert_eq!(req.path("x"), Some("y"));
    assert_eq!(req.query("q"), Some("v"));
    assert_eq!(req.query("id"), None);
}

#[test]
fn responses() {
    let r = HttpResponse::ok();
    assert_eq!((r.status, r.reason.as_str(), r.body.as_str()), (200, "OK", ""));
    assert_eq!(HttpResponse::not_found().status, 404);
    assert_eq!(HttpResponse::method_not_allowed().status, 405);
    assert_eq!(HttpResponse::request_entity_too_large().status, 413);
    let e = HttpResponse::internal_server_error();
    assert_eq!((e.status, e.reason.as_str()), (500, "Internal Server Error"));
}

#[test]
fn query_strings() {
    assert_eq!(parse_query(""), StrMap::new());
    assert_eq!(parse_query("a=1&b"), map_of(&[("a", "1"), ("b", "")]));
    assert_eq!(parse_query("a=1&a=2"), map_of(&[("a", "2")]));
    assert_eq!(parse_query("a=b=c"), map_of(&[("a", "b=c")]));
    assert_eq!(parse_query("&"), map_of(&[("", "")]));
}

#[test]
fn path_parameters() {
    assert_eq!(parse_path("/users/:id", ""), StrMap::new());
    assert_eq!(parse_path("/users/:id", "/users/7"), map_of(&[("id", "7")]));
    assert_eq!(parse_path("/a/::b", "/a/x/extra"), map_of(&[("b", "x")]));
    assert_eq!(parse_path("/a/:b/:c", "/a/x"), map_of(&[("b", "x")]));
    assert_eq!(parse_path("/:x/:x", "/1/2"), map_of(&[("x", "2")]));
}

#[test]
fn matching_compares_segment_counts_only() {
    assert!(match_route("/users", "/posts").is_some());
    assert!(match_route("/users?x=1", "/a").is_some());
    assert!(match_route("/a/b", "/a").is_none());
    let m = match_route("/p/:id", "/p/5?x=1&y").unwrap();
    assert_eq!(m.path, "/p/:id");
    assert_eq!(m.path_params, map_of(&[("id", "5")]));
    assert_eq!(m.query_params, map_of(&[("x", "1"), ("y", "")]));
}

#[test]
fn registering_an_existing_route_overwrites_it() {
    let mut routes: Vec<Route<RouteHandler>> = Vec::new();
    register_route(&mut routes, "/api", "/a", HttpMethod::GET, ok_handler);
    register_route(&mut routes, "/api", "/b", HttpMethod::GET, ok_handler);
    register_route(&mut routes, "/api", "/a", HttpMethod::POST, ok_handler);
    register_route(&mut routes, "/api/", "a", HttpMethod::GET, other_handler);
    assert_eq!(routes.len(), 3);
    assert_eq!(routes[0].path, "/api/a");
    assert_eq!(routes[0].method, HttpMethod::GET);
    assert!(routes[0].handler == other_handler as RouteHandler);
    assert_eq!(routes[1].path, "/api/b");
    assert!(routes[1].handler == ok_handler as RouteHandler);
    assert_eq!(routes[2].method, HttpMethod::POST);
    assert!(routes[2].handler == ok_handler as RouteHandler);
    let (route, _) = resolve_route(&routes, "/api/a", HttpMethod::GET).unwrap();
    assert!(route.handler == other_handler as RouteHandler);
}

#[test]
fn resolution_outcomes() {
    let mut routes: Vec<Route<RouteHandler>> = Vec::new();
    register_route(&mut routes, "/", "/users/:id", HttpMethod::GET, ok_handler);
    register_route(&mut routes, "/", "/users", HttpMethod::POST, ok_handler);
    let (route, m) = resolve_route(&routes, "/users/42?full=1", HttpMethod::GET).unwrap();
    assert_eq!(route.path, "/users/:id");
    assert_eq!(m.path_params, map_of(&[("id", "42")]));
    assert_eq!(m.query_params, map_of(&[("full", "1")]));
    assert_eq!(resolve_route(&routes, "/users", HttpMethod::GET).unwrap_err(), RouteError::MethodNotAllowed);
    assert_eq!(resolve_route(&routes, "/a/b/c", HttpMethod::GET).unwrap_err(), RouteError::NotFound);
    // the first route with a matching shape decides, even with another method further on
    assert_eq!(resolve_route(&routes, "/x/y", HttpMethod::POST).unwrap_err(), RouteError::MethodNotAllowed);
}

#[test]
fn validation_errors() {
    assert!(matches!(validate_route_path(""), Err(RouteBuilderError::EmptyPath)));
    match validate_route_path("users") {
        Err(RouteBuilderError::InvalidPath(m)) => assert_eq!(m, "Path must start with '/'"),
        _ => panic!("expected an invalid path"),
    }
    match validate_route_path("/a//b") {
        Err(RouteBuilderError::InvalidPath(m)) => assert_eq!(m, "Path cannot contain double slashes"),
        _ => panic!("expected an invalid path"),
    }
    assert!(validate_route_path("/").is_ok());
}

#[test]
fn normalizing_paths() {
    assert_eq!(normalize_path(""), "/");
    assert_eq!(normalize_path("///a/b"), "/a/b");
    assert_eq!(normalize_path("a"), "/a");
    for p in ["", "//x", "y/", "/"] {
        let n = normalize_path(p);
        assert_eq!(normalize_path(&n), n);
        assert!(n.starts_with('/'));
    }
}

#[test]
fn builder_verbs_and_add_route() {
    let mut routes: Vec<Route<RouteHandler>> = Vec::new();
    let mut group = RouteGroup { prefix: "/g".to_string(), routes: &mut routes };
    group.add_route(HttpMethod::PATCH, "/x?y=1", ok_handler);
    group.put("/x", ok_handler);
    assert_eq!(routes.len(), 2);
    assert_eq!(routes[0].path, "/g/x");
    assert_eq!(routes[0].method, HttpMethod::PATCH);
    assert_eq!(routes[1].method, HttpMethod::PUT);
}

#[test]
fn nested_group_prefixes() {
    let mut router: Router<RouteHandler> = Router::new("/api/");
    router.group("v1/", |g| g.get("/items", ok_handler));
    assert_eq!(router.routes[0].path, "/api/v1/items");
    assert_eq!(router.prefix, "/api/");
}

#[test]
fn server_read_errors_and_config() {
    assert_eq!(Server::<RouteHandler>::read_error_response(RequestError::ReadError).unwrap().status, 500);
    assert_eq!(Server::<RouteHandler>::read_error_response(RequestError::ParseError).unwrap().status, 500);
    assert_eq!(Server::<RouteHandler>::read_error_response(RequestError::InvalidRequest).unwrap().status, 500);
    assert_eq!(Server::<RouteHandler>::read_error_response(RequestError::RequestTooLarge).unwrap().status, 413);
    assert!(Server::<RouteHandler>::read_error_response(RequestError::ConnectionClosed).is_none());
    assert!(Server::<RouteHandler>::read_error_response(RequestError::ConnectionTimedOut).is_none());
    let server: Server<RouteHandler> = Server::new("0.0.0.0", 80);
    assert!(server.config.pool_size.is_none());
    let server = server.with_config(ServerConfig { pool_size: Some(4), ..ServerConfig::default() });
    assert_eq!(server.config.pool_size, Some(4));
    assert_eq!(server.ip_addr, "0.0.0.0");
    assert_eq!(server.port, 80);
}

#[test]
fn server_routes_requests() {
    let mut server: Server<RouteHandler> = Server::new("127.0.0.1", 8080);
    server.group("/api?v=1", |g| g.get("/users/:id", ok_handler));
    server.post("/login", other_handler);
    assert_eq!(server.routes[0].path, "/api/users/:id");
    let mut req = Request::read(&lines(&["GET /api/users/9?x=2 HTTP/1.1"]), 0).unwrap().0;
    let h = server.route_request(&mut req).ok().unwrap();
    assert!(*h == ok_handler as RouteHandler);
    assert_eq!(req.path("id"), Some("9"));
    // the query was split off when the request was read
    assert_eq!(req.query("x"), None);
    let mut req = Request::read(&lines(&["GET /login HTTP/1.1"]), 0).unwrap().0;
    assert_eq!(server.route_request(&mut req).err().unwrap().status, 405);
    let mut req = Request::read(&lines(&["GET / HTTP/1.1"]), 0).unwrap().0;
    assert_eq!(server.route_request(&mut req).err().unwrap().status, 405);
    let mut req = Request::read(&lines(&["GET /a/b/c/d HTTP/1.1"]), 0).unwrap().0;
    assert_eq!(server.route_request(&mut req).err().unwrap().status, 404);
    assert_eq!(req.path_params, StrMap::new());
}

#[test]
fn route_resolver_scenario() {
    let mut routes: Vec<Route<RouteHandler>> = Vec::new();
    register_route(&mut routes, "/", "/users", HttpMethod::GET, ok_handler);
    register_route(&mut routes, "/", "/users", HttpMethod::POST, ok_handler);
    register_route(&mut routes, "/", "/users/:id", HttpMethod::GET, ok_handler);
    register_route(&mut routes, "/", "/users/:id/messages/:message_id", HttpMethod::GET, ok_handler);
    assert_eq!(resolve_route(&routes, "/users", HttpMethod::GET).unwrap().0.path, "/users");
    assert_eq!(resolve_route(&routes, "/users/123", HttpMethod::GET).unwrap().0.path, "/users/:id");
    let (route, m) = resolve_route(&routes, "/users/123/messages/456", HttpMethod::GET).unwrap();
    assert_eq!(route.path, "/users/:id/messages/:message_id");
    assert_eq!(m.path_params, map_of(&[("id", "123"), ("message_id", "456")]));
    assert_eq!(
        resolve_route(&routes, "/users/123/messages/456", HttpMethod::POST).unwrap_err(),
        RouteError::MethodNotAllowed
    );
}

#[test]
fn server_registration_keeps_address_and_config() {
    let mut server: Server<RouteHandler> = Server::new("10.0.0.1", 9000)
        .with_config(ServerConfig { pool_size: Some(2), ..ServerConfig::default() });
    server.add_route(HttpMethod::GET, "/a", ok_handler);
    server.register("/b", HttpMethod::POST, ok_handler);
    assert_eq!(server.ip_addr, "10.0.0.1");
    assert_eq!(server.port, 9000);
    assert_eq!(server.config.pool_size, Some(2));
    assert_eq!(server.routes.len(), 2);
}

#[test]
fn strmap_pairs_round_trip() {
    let m = map_of(&[("a", "1"), ("b", "2"), ("a", "3")]);
    let pairs = m.to_pairs();
    assert_eq!(pairs.len(), 2);
    assert_eq!(StrMap::from_pairs(pairs), m);
}

#[test]
fn handler_failures_answer_500() {
    let ok: std::io::Result<HttpResponse> = Ok(HttpResponse::not_found());
    assert_eq!(Server::<RouteHandler>::handler_response(ok).status, 404);
    let failed: std::io::Result<HttpResponse> = Err(std::io::Error::new(std::io::ErrorKind::Other, "x"));
    let r = Server::<RouteHandler>::handler_response(failed);
    assert_eq!((r.status, r.reason.as_str()), (500, "Internal Server Error"));
}
