//! Routes, route matching and route resolution.
use vstd::prelude::*;
use crate::http::{HttpMethod, HttpResponse, Request};
use crate::strmap::StrMap;
use crate::text::{
    is_char, split_char, split_once_char, split_once_spec, split_spec, starts_with_char,
    trim_start_by, trim_start_char, views,
};
use crate::utils::{join_path, join_spec, path_part, query_part, split_path_query};

verus! {

/// The handlers that a server calls.
pub type RouteHandler = fn(&Request) -> std::io::Result<HttpResponse>;

#[derive(Debug, PartialEq)]
pub struct Route<H> {
    pub method: HttpMethod,
    pub path: String,
    pub handler: H,
}

#[derive(Debug, Clone, Copy, PartialEq, Eq, Structural)]
pub enum RouteError {
    NotFound,
    MethodNotAllowed,
}

#[derive(Debug, PartialEq)]
pub struct RouteMatch {
    pub path: String,
    pub path_params: StrMap,
    pub query_params: StrMap,
}

/// The key and value of one `key=value` pair of a query string; a pair without `=` has an
/// empty value.
pub open spec fn query_entry(pair: Seq<char>) -> (Seq<char>, Seq<char>) {
    match split_once_spec(pair, '=') {
        Some(kv) => kv,
        None => (pair, Seq::empty()),
    }
}

/// The parameters of a sequence of query pairs; a later pair wins.
pub open spec fn query_pairs_map(pairs: Seq<Seq<char>>) -> Map<Seq<char>, Seq<char>>
    decreases pairs.len(),
{
    if pairs.len() == 0 {
        Map::empty()
    } else {
        let (k, v) = query_entry(pairs.last());
        query_pairs_map(pairs.drop_last()).insert(k, v)
    }
}

/// The parameters of a query string: its `&`-separated pairs.
pub open spec fn parse_query_spec(query: Seq<char>) -> Map<Seq<char>, Seq<char>> {
    if query.len() == 0 {
        Map::empty()
    } else {
        query_pairs_map(split_spec(query, '&'))
    }
}

/// The parameter that a route segment declares: a segment that starts with `:` names the
/// parameter by what follows its leading colons.
pub open spec fn param_name(segment: Seq<char>) -> Option<Seq<char>> {
    if segment.len() > 0 && segment[0] == ':' {
        Some(trim_start_by(segment, is_char(':')))
    } else {
        None
    }
}

/// The path parameters that the first `n` segment pairs bind.
pub open spec fn params_upto(route: Seq<Seq<char>>, incoming: Seq<Seq<char>>, n: int) -> Map<
    Seq<char>,
    Seq<char>,
>
    decreases n,
{
    if n <= 0 {
        Map::empty()
    } else {
        let m = params_upto(route, incoming, n - 1);
        match param_name(route[n - 1]) {
            Some(name) => m.insert(name, incoming[n - 1]),
            None => m,
        }
    }
}

/// The path parameters that a route path binds in an incoming path, segment by segment,
/// as far as both have segments.
pub open spec fn parse_path_spec(path: Seq<char>, incoming: Seq<char>) -> Map<Seq<char>, Seq<char>> {
    if incoming.len() == 0 {
        Map::empty()
    } else {
        let r = split_spec(path, '/');
        let i = split_spec(incoming, '/');
        params_upto(r, i, if r.len() <= i.len() { r.len() as int } else { i.len() as int })
    }
}

/// A route matches an incoming target when their paths have as many `/`-separated segments.
pub open spec fn shapes_match(route: Seq<char>, incoming: Seq<char>) -> bool {
    split_spec(path_part(route), '/').len() == split_spec(path_part(incoming), '/').len()
}

/// `m` is what matching `route` against `incoming` gives.
pub open spec fn is_match_of(m: RouteMatch, route: Seq<char>, incoming: Seq<char>) -> bool {
    &&& m.path@ == path_part(route)
    &&& m.path_params@ == parse_path_spec(path_part(route), path_part(incoming))
    &&& m.query_params@ == parse_query_spec(query_part(incoming))
}

/// Reads the parameters of a query string.
pub fn parse_query(query: &str) -> (r: StrMap)
    ensures
        r@ == parse_query_spec(query@),
{
    if query.is_empty() {
        return StrMap::new();
    }
    let pairs = split_char(query, '&');
    let ghost ps = views(pairs@);
    let mut m = StrMap::new();
    let mut i: usize = 0;
    assert(ps.take(0) =~= Seq::<Seq<char>>::empty());
    while i < pairs.len()
        invariant
            ps == views(pairs@),
            ps == split_spec(query@, '&'),
            i <= pairs@.len(),
            m@ == query_pairs_map(ps.take(i as int)),
        decreases pairs@.len() - i,
    {
        let pair = pairs[i];
        proof {
            assert(ps.take(i + 1).drop_last() =~= ps.take(i as int));
            assert(ps.take(i + 1).last() == pair@);
        }
        match split_once_char(pair, '=') {
            Some((k, v)) => {
                m.insert(k.to_string(), v.to_string());
            },
            None => {
                m.insert(pair.to_string(), String::new());
            },
        }
        i += 1;
    }
    assert(ps.take(i as int) =~= ps);
    m
}

/// Binds the parameters of a route path (its `:name` segments) to the segments of an
/// incoming path at the same positions.
pub fn parse_path(path: &str, incoming: &str) -> (r: StrMap)
    ensures
        r@ == parse_path_spec(path@, incoming@),
{
    if incoming.is_empty() {
        return StrMap::new();
    }
    let route_parts = split_char(path, '/');
    let incoming_parts = split_char(incoming, '/');
    let n = if route_parts.len() <= incoming_parts.len() {
        route_parts.len()
    } else {
        incoming_parts.len()
    };
    let ghost rs = views(route_parts@);
    let ghost is = views(incoming_parts@);
    let mut m = StrMap::new();
    let mut i: usize = 0;
    while i < n
        invariant
            rs == views(route_parts@),
            is == views(incoming_parts@),
            rs == split_spec(path@, '/'),
            is == split_spec(incoming@, '/'),
            n <= route_parts@.len(),
            n <= incoming_parts@.len(),
            i <= n,
            m@ == params_upto(rs, is, i as int),
        decreases n - i,
    {
        let route_part = route_parts[i];
        let incoming_part = incoming_parts[i];
        assert(rs[i as int] == route_part@);
        assert(is[i as int] == incoming_part@);
        if starts_with_char(route_part, ':') {
            m.insert(trim_start_char(route_part, ':').to_string(), incoming_part.to_string());
        }
        i += 1;
    }
    m
}

/// Matches an incoming target against a route path: they match when their paths have as
/// many segments; the match binds the route's parameters and reads the target's query.
pub fn match_route(route: &str, incoming: &str) -> (r: Option<RouteMatch>)
    ensures
        r is Some <==> shapes_match(route@, incoming@),
        r matches Some(m) ==> is_match_of(m, route@, incoming@),
{
    let (route_path, _) = split_path_query(route);
    let (incoming_path, incoming_query) = split_path_query(incoming);
    let route_parts = split_char(route_path, '/');
    let incoming_parts = split_char(incoming_path, '/');
    if route_parts.len() != incoming_parts.len() {
        return None;
    }
    Some(
        RouteMatch {
            path: route_path.to_string(),
            path_params: parse_path(route_path, incoming_path),
            query_params: parse_query(incoming_query),
        },
    )
}

/// The route stands for `path` and `method`.
pub open spec fn same_route<H>(r: Route<H>, path: Seq<char>, method: HttpMethod) -> bool {
    r.path@ == path && r.method == method
}

/// `i` is the first route of `routes` for `path` and `method`.
pub open spec fn is_first_same<H>(
    routes: Seq<Route<H>>,
    path: Seq<char>,
    method: HttpMethod,
    i: int,
) -> bool {
    &&& 0 <= i < routes.len()
    &&& same_route(routes[i], path, method)
    &&& forall|k: int| 0 <= k < i ==> !same_route(#[trigger] routes[k], path, method)
}

/// Where a route for `path` and `method` goes: in place of the first route for the same
/// path and method, else at the end.
pub open spec fn slot<H>(routes: Seq<Route<H>>, path: Seq<char>, method: HttpMethod) -> int {
    if exists|i: int| is_first_same(routes, path, method, i) {
        choose|i: int| is_first_same(routes, path, method, i)
    } else {
        routes.len() as int
    }
}

/// `after` is `before` with a route for `path`, `method` and `handler` at its slot: the first
/// route for the same path and method is overwritten, and without one the route is appended.
pub open spec fn registered<H>(
    before: Seq<Route<H>>,
    after: Seq<Route<H>>,
    path: Seq<char>,
    method: HttpMethod,
    handler: H,
) -> bool {
    let i = slot(before, path, method);
    &&& 0 <= i <= before.len()
    &&& after.len() == (if i < before.len() {
        before.len()
    } else {
        before.len() + 1
    })
    &&& after[i].path@ == path
    &&& after[i].method == method
    &&& after[i].handler == handler
    &&& forall|k: int| 0 <= k < before.len() && k != i ==> #[trigger] after[k] == before[k]
}

/// Adds a route for `prefix` joined with `path`. A route that is already present for the same
/// path and method is overwritten.
pub fn register_route<H>(
    routes: &mut Vec<Route<H>>,
    prefix: &str,
    path: &str,
    method: HttpMethod,
    handler: H,
)
    ensures
        registered(old(routes)@, final(routes)@, join_spec(prefix@, path@), method, handler),
{
    let full = join_path(prefix, path);
    let ghost p = full@;
    let ghost before = routes@;
    let mut i: usize = 0;
    while i < routes.len()
        invariant
            routes@ == before,
            before == old(routes)@,
            i <= routes@.len(),
            p == full@,
            p == join_spec(prefix@, path@),
            forall|k: int| 0 <= k < i ==> !same_route(#[trigger] routes@[k], p, method),
        decreases routes@.len() - i,
    {
        if routes[i].path == full && routes[i].method == method {
            proof {
                assert(is_first_same(before, p, method, i as int));
                let j = choose|j: int| is_first_same(before, p, method, j);
                if j < i {
                    assert(!same_route(before[j], p, method));
                } else if j > i {
                    assert(!same_route(before[i as int], p, method));
                }
                assert(slot(before, p, method) == i);
            }
            routes.set(i, Route { path: full, method, handler });
            return;
        }
        i += 1;
    }
    proof {
        if exists|j: int| is_first_same(before, p, method, j) {
            let j = choose|j: int| is_first_same(before, p, method, j);
            assert(!same_route(before[j], p, method));
        }
    }
    routes.push(Route { path: full, method, handler });
}

/// `i` is the first route of `routes` whose path matches `incoming`.
pub open spec fn is_first_match<H>(routes: Seq<Route<H>>, incoming: Seq<char>, i: int) -> bool {
    &&& 0 <= i < routes.len()
    &&& shapes_match(routes[i].path@, incoming)
    &&& forall|k: int| 0 <= k < i ==> !shapes_match(#[trigger] routes[k].path@, incoming)
}

/// Finds the route for a request: the first route whose path matches decides; its method must
/// be the request's.
pub fn resolve_route<'a, H>(routes: &'a Vec<Route<H>>, path: &str, method: HttpMethod) -> (r:
    Result<(&'a Route<H>, RouteMatch), RouteError>)
    ensures
        match r {
            Ok((route, m)) => exists|i: int|
                #[trigger] is_first_match(routes@, path@, i) && *route == routes@[i]
                    && route.method == method && is_match_of(m, route.path@, path@),
            Err(RouteError::MethodNotAllowed) => exists|i: int|
                #[trigger] is_first_match(routes@, path@, i) && routes@[i].method != method,
            Err(RouteError::NotFound) => forall|i: int|
                0 <= i < routes@.len() ==> !shapes_match(#[trigger] routes@[i].path@, path@),
        },
{
    let mut i: usize = 0;
    while i < routes.len()
        invariant
            i <= routes@.len(),
            forall|k: int| 0 <= k < i ==> !shapes_match(#[trigger] routes@[k].path@, path@),
        decreases routes@.len() - i,
    {
        let route = &routes[i];
        match match_route(route.path.as_str(), path) {
            Some(m) => {
                assert(is_first_match(routes@, path@, i as int));
                if route.method == method {
                    return Ok((route, m));
                }
                return Err(RouteError::MethodNotAllowed);
            },
            None => {},
        }
        i += 1;
    }
    Err(RouteError::NotFound)
}

} // verus!
