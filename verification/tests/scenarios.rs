use rustwebserver::http::headers::parse_headers;
use rustwebserver::http::{HttpMethod, HttpResponse};
use rustwebserver::routing::builder::{validate_route_path, RouteBuilder};
use rustwebserver::routing::route::{match_route, RouteHandler, RouteMatch};
use rustwebserver::routing::router::Router;
use rustwebserver::server::server::Server;
use rustwebserver::strmap::StrMap;

fn map_of(pairs: &[(&str, &str)]) -> StrMap {
    StrMap::from_pairs(pairs.iter().map(|(k, v)| (k.to_string(), v.to_string())).collect())
}

#[test]
fn test_parse_headers() {
    let lines = vec![
        "Content-Type: text/html".to_string(),
        "Content-Length: 123".to_string(),
        "Set-Cookie: sessionId=abc123".to_string(),
    ];
    let headers = parse_headers(&lines);
    assert_eq!(headers.get("content-type"), Some("text/html"));
    assert_eq!(headers.get("content-length"), Some("123"));
    assert_eq!(headers.get("set-cookie"), Some("sessionId=abc123"));
}

#[test]
fn test_validate_route_path() {
    assert!(validate_route_path("/users").is_ok());
    assert!(validate_route_path("/users/123").is_ok());
    assert!(validate_route_path("/users/:id").is_ok());
    assert!(validate_route_path("/users/:id/messages/:message_id").is_ok());
    assert!(validate_route_path("//users/:id/messages/:message_id").is_err());
    assert!(validate_route_path("users/123/messages/456").is_err());
}

#[test]
fn test_match_route() {
    assert!(match_route("/", "/").is_some());
    assert!(match_route("/users", "/users").is_some());
    assert!(match_route("/users/:id", "/users/123").is_some());
    assert_eq!(match_route("/users/messages/:message_id", "/users/:userid"), None);
    assert_eq!(
        match_route("/users/:user_id/messages/:message_id", "/users/123/messages/456"),
        Some(RouteMatch {
            path: "/users/:user_id/messages/:message_id".to_string(),
            path_params: map_of(&[("user_id", "123"), ("message_id", "456")]),
            query_params: StrMap::new(),
        })
    );
    assert_eq!(match_route("/users/messages/:message_id", "/users/123/messages/456/"), None);
    assert_eq!(
        match_route(
            "/users/:user_id/messages/:message_id",
            "/users/123/messages/456?limit=10"
        ),
        Some(RouteMatch {
            path: "/users/:user_id/messages/:message_id".to_string(),
            path_params: map_of(&[("user_id", "123"), ("message_id", "456")]),
            query_params: map_of(&[("limit", "10")]),
        })
    );
}

#[test]
fn test_route_builder() {
    let mut router: Router<RouteHandler> = Router::new("/api");
    router.register("/users", HttpMethod::GET, |_| Ok(HttpResponse::ok()));
    assert_eq!(router.routes.len(), 1);
    assert_eq!(router.routes[0].method, HttpMethod::GET);
    assert_eq!(router.routes[0].path, "/api/users");
}

#[test]
fn test_group() {
    let mut router: Router<RouteHandler> = Router::new("/api");
    router.group("/v1", |group| group.get("/users", |_| Ok(HttpResponse::ok())));

    assert_eq!(router.routes.len(), 1);
    assert_eq!(router.routes[0].method, HttpMethod::GET);
    assert_eq!(router.routes[0].path, "/api/v1/users");
}

#[test]
fn test_router_register_route() {
    let mut router: Router<RouteHandler> = Router::new("/api");
    router.register("/users", HttpMethod::GET, |_| Ok(HttpResponse::ok()));

    assert_eq!(router.routes.len(), 1);
    assert_eq!(router.routes[0].method, HttpMethod::GET);
    assert_eq!(router.routes[0].path, "/api/users");
}

#[test]
fn test_router_http_verbs() {
    let mut router: Router<RouteHandler> = Router::new("/api");
    router.get("/users", |_| Ok(HttpResponse::ok()));
    router.post("/users", |_| Ok(HttpResponse::ok()));
    router.put("/users", |_| Ok(HttpResponse::ok()));
    router.patch("/users", |_| Ok(HttpResponse::ok()));
    router.delete("/users", |_| Ok(HttpResponse::ok()));
    router.head("/users", |_| Ok(HttpResponse::ok()));
    router.options("/users", |_| Ok(HttpResponse::ok()));

    assert_eq!(router.routes.len(), 7);
    assert_eq!(router.routes[0].method, HttpMethod::GET);
    assert_eq!(router.routes[0].path, "/api/users");
    assert_eq!(router.routes[1].method, HttpMethod::POST);
    assert_eq!(router.routes[1].path, "/api/users");
    assert_eq!(router.routes[2].method, HttpMethod::PUT);
    assert_eq!(router.routes[2].path, "/api/users");
    assert_eq!(router.routes[3].method, HttpMethod::PATCH);
    assert_eq!(router.routes[3].path, "/api/users");
    assert_eq!(router.routes[4].method, HttpMethod::DELETE);
    assert_eq!(router.routes[4].path, "/api/users");
    assert_eq!(router.routes[5].method, HttpMethod::HEAD);
    assert_eq!(router.routes[5].path, "/api/users");
    assert_eq!(router.routes[6].method, HttpMethod::OPTIONS);
    assert_eq!(router.routes[6].path, "/api/users");
}

#[test]
fn test_server_group_route() {
    let mut server: Server<RouteHandler> = Server::new("127.0.0.1", 8080);
    server.group("/api", |group| {
        group.get("/users", |_| Ok(HttpResponse::ok()));
        group.post("/users", |_| Ok(HttpResponse::ok()));
        group.get("/users/:id", |_| Ok(HttpResponse::ok()));
        group.get("/users/:id/messages?limit=10", |_| Ok(HttpResponse::ok()));
    });

    server.get("/debug/telemetry", |_| Ok(HttpResponse::ok()));

    assert_eq!(server.routes[0].path, "/api/users");
    assert_eq!(server.routes[1].path, "/api/users");
    assert_eq!(server.routes[2].path, "/api/users/:id");
    assert_eq!(server.routes[3].path, "/api/users/:id/messages");
    assert_eq!(server.routes[4].path, "/debug/telemetry");
}
