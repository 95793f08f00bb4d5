//! Properties of the library that relate several of its functions.
use vstd::prelude::*;
use crate::http::HttpMethod;
use crate::routing::builder::normalize_spec;
use crate::routing::route::{
    is_first_same, param_name, params_upto, parse_path_spec, parse_query_spec, query_entry,
    query_pairs_map, registered, same_route, shapes_match, slot, Route,
};
use crate::http::headers::{header_entry, headers_map};
use crate::http::method::method_from_str;
use crate::http::request::{request_line_spec, RequestError};
use crate::http::version::{version_from_str, Version};
use crate::text::{
    is_whitespace, lemma_char_index_at, lemma_char_index_none, lowercase, non_ws, split_spec,
    trim_spec, words, ws,
    char_index, is_char, lead_count, lemma_char_index, lemma_lead_count_bound, lemma_lead_count_skip,
    lemma_trail_count_bound, lemma_trail_count_take, trail_count, trim_end_by, trim_start_by,
};
use crate::utils::{join_spec, path_part, query_part};
use crate::routing::builder::{registers, RouteBuilder};
use crate::server::server::Server;

verus! {

/// Normalizing a normalized path changes nothing, and a normalized path starts with `/`.
pub proof fn lemma_normalize_idempotent(path: Seq<char>)
    ensures
        normalize_spec(normalize_spec(path)) == normalize_spec(path),
        normalize_spec(path).len() > 0,
        normalize_spec(path)[0] == '/',
{
    let t = trim_start_by(path, is_char('/'));
    lemma_lead_count_bound(path, is_char('/'));
    let n = normalize_spec(path);
    if t.len() == 0 {
        assert(n =~= seq!['/']);
        assert(n.drop_first() =~= Seq::<char>::empty());
        assert(lead_count(n.drop_first(), is_char('/')) == 0);
        assert(lead_count(n, is_char('/')) == 1);
        assert(trim_start_by(n, is_char('/')) =~= Seq::<char>::empty());
    } else {
        assert(t[0] == path[lead_count(path, is_char('/')) as int]);
        assert(n.drop_first() =~= t);
        assert(lead_count(t, is_char('/')) == 0);
        assert(lead_count(n, is_char('/')) == 1);
        assert(trim_start_by(n, is_char('/')) =~= t);
    }
}

/// When some route is for `path` and `method`, a first one is.
proof fn lemma_first_same_exists<H>(
    routes: Seq<Route<H>>,
    path: Seq<char>,
    method: HttpMethod,
    k: int,
)
    requires
        0 <= k < routes.len(),
        same_route(routes[k], path, method),
    ensures
        exists|j: int| is_first_same(routes, path, method, j),
    decreases k,
{
    if exists|j: int| 0 <= j < k && same_route(#[trigger] routes[j], path, method) {
        let j = choose|j: int| 0 <= j < k && same_route(#[trigger] routes[j], path, method);
        lemma_first_same_exists(routes, path, method, j);
    } else {
        assert(is_first_same(routes, path, method, k));
    }
}

/// No two routes of the table are for the same path and method.
pub open spec fn routes_unique<H>(routes: Seq<Route<H>>) -> bool {
    forall|a: int, b: int|
        0 <= a < routes.len() && 0 <= b < routes.len() && a != b ==> !same_route(
            #[trigger] routes[a],
            (#[trigger] routes[b]).path@,
            routes[b].method,
        )
}

/// Registering overwrites: the registered route is the first route for its path and method,
/// and a table that held no two routes for the same path and method still holds none, with
/// the same length when it had a route for the path and method and one more otherwise.
pub proof fn lemma_register_overwrites<H>(
    before: Seq<Route<H>>,
    after: Seq<Route<H>>,
    path: Seq<char>,
    method: HttpMethod,
    handler: H,
)
    requires
        registered(before, after, path, method, handler),
    ensures
        is_first_same(after, path, method, slot(before, path, method)),
        routes_unique(before) ==> routes_unique(after),
        routes_unique(before) ==> after.len() == before.len() + (if exists|k: int|
            0 <= k < before.len() && same_route(#[trigger] before[k], path, method) {
            0int
        } else {
            1int
        }),
{
    let i = slot(before, path, method);
    let found = exists|j: int| is_first_same(before, path, method, j);
    assert forall|k: int| 0 <= k < i implies !same_route(#[trigger] after[k], path, method) by {
        assert(after[k] == before[k]);
        if same_route(before[k], path, method) {
            lemma_first_same_exists(before, path, method, k);
        }
    }
    if found {
        let j = choose|j: int| is_first_same(before, path, method, j);
        assert(i == j);
    }
    if routes_unique(before) {
        assert forall|a: int, b: int|
            0 <= a < after.len() && 0 <= b < after.len() && a != b implies !same_route(
            #[trigger] after[a],
            (#[trigger] after[b]).path@,
            after[b].method,
        ) by {
            if a == i {
                if b < before.len() {
                    assert(after[b] == before[b]);
                    if same_route(before[b], path, method) {
                        if b < i {
                        } else {
                            assert(same_route(before[i], before[b].path@, before[b].method));
                        }
                    }
                }
            } else if b == i {
                if a < before.len() {
                    assert(after[a] == before[a]);
                    if same_route(before[a], path, method) {
                        if a < i {
                            assert(!same_route(after[a], path, method));
                        } else {
                            assert(same_route(before[a], before[i].path@, before[i].method));
                        }
                    }
                }
            } else {
                assert(after[a] == before[a]);
                assert(after[b] == before[b]);
            }
        }
        if exists|k: int| 0 <= k < before.len() && same_route(#[trigger] before[k], path, method) {
            let k = choose|k: int| 0 <= k < before.len() && same_route(#[trigger] before[k], path, method);
            lemma_first_same_exists(before, path, method, k);
        }
    }
}

/// Registering a path and method that no route has yet appends the route.
pub proof fn lemma_register_new_appends<H>(
    before: Seq<Route<H>>,
    after: Seq<Route<H>>,
    path: Seq<char>,
    method: HttpMethod,
    handler: H,
)
    requires
        registered(before, after, path, method, handler),
        forall|k: int| 0 <= k < before.len() ==> !same_route(#[trigger] before[k], path, method),
    ensures
        slot(before, path, method) == before.len(),
        after.drop_last() == before,
        same_route(after.last(), path, method),
        after.last().handler == handler,
{
    if exists|j: int| is_first_same(before, path, method, j) {
        let j = choose|j: int| is_first_same(before, path, method, j);
        assert(!same_route(before[j], path, method));
    }
    assert forall|k: int| 0 <= k < before.len() implies after.drop_last()[k] == before[k] by {
        assert(after[k] == before[k]);
    }
    assert(after.drop_last() =~= before);
}

/// Matching routes to paths compares their shapes: every path matches itself, and matching
/// is symmetric and transitive.
pub proof fn lemma_shapes_match_equivalence(a: Seq<char>, b: Seq<char>, c: Seq<char>)
    ensures
        shapes_match(a, a),
        shapes_match(a, b) == shapes_match(b, a),
        shapes_match(a, b) && shapes_match(b, c) ==> shapes_match(a, c),
{
}

/// A request target is its path and its query put back together, and the path holds no `?`.
pub proof fn lemma_split_path_query(target: Seq<char>)
    ensures
        forall|k: int| 0 <= k < path_part(target).len() ==> #[trigger] path_part(target)[k] != '?',
        char_index(target, '?') is Some ==> path_part(target) + seq!['?'] + query_part(target)
            == target,
        char_index(target, '?') is None ==> path_part(target) == target && query_part(target)
            == Seq::<char>::empty(),
{
    lemma_char_index(target, '?');
    if let Some(i) = char_index(target, '?') {
        assert(path_part(target) + seq!['?'] + query_part(target) =~= target);
    }
}

/// Added parameters win: after adding `added` to `params`, each added name has its added
/// value and every other name keeps its value.
pub proof fn lemma_added_params_win(
    params: Map<Seq<char>, Seq<char>>,
    added: Map<Seq<char>, Seq<char>>,
    key: Seq<char>,
)
    ensures
        added.contains_key(key) ==> params.union_prefer_right(added).contains_key(key)
            && params.union_prefer_right(added)[key] == added[key],
        !added.contains_key(key) ==> params.union_prefer_right(added).contains_key(key)
            == params.contains_key(key) && (params.contains_key(key) ==> params.union_prefer_right(
            added,
        )[key] == params[key]),
{
}


/// The leading run of a concatenation.
proof fn lemma_lead_concat(x: Seq<char>, y: Seq<char>, p: spec_fn(char) -> bool)
    ensures
        lead_count(x + y, p) == if lead_count(x, p) < x.len() {
            lead_count(x, p) as int
        } else {
            (x.len() + lead_count(y, p)) as int
        },
    decreases x.len(),
{
    lemma_lead_count_bound(x, p);
    if x.len() == 0 {
        assert(x + y =~= y);
    } else if p(x[0]) {
        assert((x + y).drop_first() =~= x.drop_first() + y);
        assert((x + y)[0] == x[0]);
        lemma_lead_concat(x.drop_first(), y, p);
    } else {
        assert((x + y)[0] == x[0]);
    }
}

/// The trailing run of a concatenation.
proof fn lemma_trail_concat(x: Seq<char>, y: Seq<char>, p: spec_fn(char) -> bool)
    ensures
        trail_count(x + y, p) == if trail_count(y, p) < y.len() {
            trail_count(y, p) as int
        } else {
            (y.len() + trail_count(x, p)) as int
        },
    decreases y.len(),
{
    lemma_trail_count_bound(y, p);
    if y.len() == 0 {
        assert(x + y =~= x);
    } else if p(y.last()) {
        assert((x + y).drop_last() =~= x + y.drop_last());
        assert((x + y).last() == y.last());
        lemma_trail_concat(x, y.drop_last(), p);
    } else {
        assert((x + y).last() == y.last());
    }
}

/// Trimming both ends of `b`, in either order; nothing is left exactly when `b` is all `p`.
proof fn lemma_trim_both(b: Seq<char>, p: spec_fn(char) -> bool)
    ensures
        trim_end_by(trim_start_by(b, p), p) == trim_start_by(trim_end_by(b, p), p),
        trim_start_by(b, p).len() == 0 <==> trim_end_by(b, p).len() == 0,
{
    lemma_lead_count_bound(b, p);
    lemma_trail_count_bound(b, p);
    let lb = lead_count(b, p) as int;
    let sb = trim_start_by(b, p);
    if lb == b.len() {
        lemma_trail_count_take(b, p, 0);
        assert(trim_end_by(b, p) =~= Seq::<char>::empty());
        assert(sb =~= Seq::<char>::empty());
        assert(trim_end_by(sb, p) =~= Seq::<char>::empty());
        assert(trim_start_by(trim_end_by(b, p), p) =~= Seq::<char>::empty());
    } else {
        let x = b.take(lb);
        assert(b =~= x + sb);
        lemma_trail_count_bound(sb, p);
        assert(sb[0] == b[lb]);
        if trail_count(sb, p) == sb.len() {
            assert(p(sb[0]));
        }
        lemma_trail_concat(x, sb, p);
        let t = trail_count(sb, p) as int;
        let mid = b.subrange(lb, b.len() - t);
        assert(trim_end_by(sb, p) =~= mid);
        let eb = trim_end_by(b, p);
        assert(eb =~= x + mid);
        assert(forall|k: int| 0 <= k < lb ==> #[trigger] x[k] == b[k]);
        lemma_lead_count_skip(x, p, lb);
        assert(x.skip(lb) =~= Seq::<char>::empty());
        assert(mid[0] == b[lb]);
        lemma_lead_concat(x, mid, p);
        assert(trim_start_by(eb, p) =~= mid);
    }
}

/// Joining is associative: registering `path` in a group with prefix `group` on a router with
/// prefix `prefix` gives the path that registering `group` joined with `path` on the router
/// gives.
pub proof fn lemma_join_associative(prefix: Seq<char>, group: Seq<char>, path: Seq<char>)
    ensures
        join_spec(join_spec(prefix, group), path) == join_spec(prefix, join_spec(group, path)),
{
    let p = is_char('/');
    let a = trim_end_by(prefix, p);
    let eb = trim_end_by(group, p);
    let b = trim_start_by(group, p);
    let c = trim_start_by(path, p);
    let slash = seq!['/'];
    lemma_trail_count_bound(prefix, p);
    lemma_trail_count_bound(group, p);
    lemma_lead_count_bound(group, p);
    lemma_lead_count_bound(path, p);
    lemma_trim_both(group, p);
    // The trimmed pieces start or end with something other than `/`.
    if a.len() > 0 {
        assert(a.last() == prefix[prefix.len() - trail_count(prefix, p) - 1]);
    }
    if eb.len() > 0 {
        assert(eb.last() == group[group.len() - trail_count(group, p) - 1]);
    }
    if b.len() > 0 {
        assert(b[0] == group[lead_count(group, p) as int]);
    }
    if c.len() > 0 {
        assert(c[0] == path[lead_count(path, p) as int]);
    }
    // Trailing slashes of `a` and `eb` are gone already.
    lemma_trail_count_bound(a, p);
    assert(trail_count(a, p) == 0) by {
        if a.len() > 0 {
            assert(!p(a.last()));
        }
    }
    assert(trim_end_by(a, p) =~= a);
    // Trimming a lone slash leaves nothing.
    assert(slash.drop_last() =~= Seq::<char>::empty());
    assert(trail_count(slash.drop_last(), p) == 0);
    assert(trim_end_by(slash, p) =~= Seq::<char>::empty());
    assert(slash.drop_first() =~= Seq::<char>::empty());
    assert(lead_count(slash.drop_first(), p) == 0);
    assert(trim_start_by(slash, p) =~= Seq::<char>::empty());
    let x = join_spec(prefix, group);
    let y = join_spec(group, path);
    // The end of `x` without slashes.
    if b.len() == 0 {
        assert(trim_end_by(x, p) =~= a);
    } else {
        let tb = trim_end_by(b, p);
        lemma_trail_count_bound(b, p);
        if trail_count(b, p) == b.len() {
            assert(p(b[0]));
        }
        lemma_trail_concat(a + slash, b, p);
        assert(x =~= (a + slash) + b);
        assert(trim_end_by(x, p) =~= a + slash + tb);
    }
    // The start of `y` without slashes.
    if c.len() == 0 {
        if eb.len() == 0 {
            assert(trim_start_by(y, p) =~= Seq::<char>::empty());
        } else {
            assert(y =~= eb);
        }
    } else {
        if eb.len() == 0 {
            assert(y =~= slash + c);
            lemma_lead_concat(slash, c, p);
            lemma_lead_count_bound(c, p);
            assert(lead_count(c, p) == 0);
            assert(trim_start_by(y, p) =~= c);
        } else {
            let sb = trim_start_by(eb, p);
            lemma_lead_count_bound(eb, p);
            if lead_count(eb, p) == eb.len() {
                assert(p(eb.last()));
            }
            assert(y =~= eb + (slash + c));
            lemma_lead_concat(eb, slash + c, p);
            assert(trim_start_by(y, p) =~= sb + slash + c);
        }
    }
    assert(join_spec(x, path) =~= join_spec(prefix, y));
}


/// A map gives back what was last inserted for a key and keeps every other key.
pub proof fn lemma_insert_then_get(
    m: Map<Seq<char>, Seq<char>>,
    key: Seq<char>,
    value: Seq<char>,
    other: Seq<char>,
)
    ensures
        m.insert(key, value).contains_key(key),
        m.insert(key, value)[key] == value,
        other != key ==> m.insert(key, value).contains_key(other) == m.contains_key(other),
        other != key && m.contains_key(other) ==> m.insert(key, value)[other] == m[other],
{
}


/// Registering is deterministic: two tables that one registration of the same route turns
/// the same table into hold the same routes (the same paths, methods and handlers, in the
/// same order). So `add_route` and each verb method leave a builder as `register` does.
pub proof fn lemma_register_deterministic<H>(
    before: Seq<Route<H>>,
    after1: Seq<Route<H>>,
    after2: Seq<Route<H>>,
    path: Seq<char>,
    method: HttpMethod,
    handler: H,
)
    requires
        registered(before, after1, path, method, handler),
        registered(before, after2, path, method, handler),
    ensures
        after1.len() == after2.len(),
        forall|k: int|
            0 <= k < after1.len() ==> (#[trigger] after1[k]).path@ == after2[k].path@
                && after1[k].method == after2[k].method && after1[k].handler == after2[k].handler,
{
    let i = slot(before, path, method);
    assert forall|k: int| 0 <= k < after1.len() implies (#[trigger] after1[k]).path@
        == after2[k].path@ && after1[k].method == after2[k].method && after1[k].handler
        == after2[k].handler by {
        if k != i {
            assert(after1[k] == before[k]);
            assert(after2[k] == before[k]);
        }
    }
}


/// A verb method and `add_route` leave any builder as `register` does: starting from the same
/// builder, both give route tables with the same paths, methods and handlers in the same
/// order, and the same prefix.
pub proof fn lemma_verb_as_register<H, B: RouteBuilder<H>>(
    start: B,
    by_verb: B,
    by_register: B,
    path: Seq<char>,
    method: HttpMethod,
    handler: H,
)
    requires
        registers(start.route_table(), by_verb.route_table(), start.route_prefix(), path, method, handler),
        by_verb.route_prefix() == start.route_prefix(),
        registers(start.route_table(), by_register.route_table(), start.route_prefix(), path, method, handler),
        by_register.route_prefix() == start.route_prefix(),
    ensures
        by_verb.route_table().len() == by_register.route_table().len(),
        forall|k: int|
            0 <= k < by_verb.route_table().len() ==> (#[trigger] by_verb.route_table()[k]).path@
                == by_register.route_table()[k].path@ && by_verb.route_table()[k].method
                == by_register.route_table()[k].method && by_verb.route_table()[k].handler
                == by_register.route_table()[k].handler,
        by_verb.route_prefix() == by_register.route_prefix(),
{
    lemma_register_deterministic(
        start.route_table(),
        by_verb.route_table(),
        by_register.route_table(),
        join_spec(start.route_prefix(), path_part(path)),
        method,
        handler,
    );
}

/// For a server, a verb method and `register` also leave the same address, port and
/// configuration.
pub proof fn lemma_server_verb_as_register<H>(start: Server<H>, by_verb: Server<H>, by_register: Server<H>)
    requires
        <Server<H> as RouteBuilder<H>>::settings_kept(start, by_verb),
        <Server<H> as RouteBuilder<H>>::settings_kept(start, by_register),
    ensures
        by_verb.ip_addr == by_register.ip_addr,
        by_verb.port == by_register.port,
        by_verb.config == by_register.config,
{
}


/// Whether a route matches a target depends on the target's path alone: a query string never
/// changes it, whatever characters (`/` among them) it holds.
pub proof fn lemma_match_ignores_query(route: Seq<char>, target: Seq<char>, query: Seq<char>)
    ensures
        shapes_match(route, target) == shapes_match(route, path_part(target)),
        (forall|k: int| 0 <= k < target.len() ==> target[k] != '?') ==> shapes_match(
            route,
            target + seq!['?'] + query,
        ) == shapes_match(route, target),
{
    lemma_split_path_query(target);
    lemma_char_index_none(path_part(target), '?');
    if forall|k: int| 0 <= k < target.len() ==> target[k] != '?' {
        let full = target + seq!['?'] + query;
        assert forall|k: int| 0 <= k < target.len() implies full[k] != '?' by {
            assert(full[k] == target[k]);
        }
        lemma_char_index_at(full, '?', target.len() as int);
        assert(full.take(target.len() as int) =~= target);
        lemma_char_index_none(target, '?');
    }
}

/// The name of a method as a request line writes it.
pub open spec fn method_name(m: HttpMethod) -> Seq<char> {
    match m {
        HttpMethod::GET => "GET"@,
        HttpMethod::POST => "POST"@,
        HttpMethod::PUT => "PUT"@,
        HttpMethod::PATCH => "PATCH"@,
        HttpMethod::DELETE => "DELETE"@,
        HttpMethod::OPTIONS => "OPTIONS"@,
        HttpMethod::HEAD => "HEAD"@,
    }
}

/// The method names: their lengths and first characters tell them apart.
proof fn lemma_method_literals()
    ensures
        "GET"@.len() == 3 && "GET"@[0] == 'G',
        "POST"@.len() == 4 && "POST"@[0] == 'P',
        "PUT"@.len() == 3 && "PUT"@[0] == 'P',
        "PATCH"@.len() == 5 && "PATCH"@[0] == 'P',
        "DELETE"@.len() == 6 && "DELETE"@[0] == 'D',
        "OPTIONS"@.len() == 7 && "OPTIONS"@[0] == 'O',
        "HEAD"@.len() == 4 && "HEAD"@[0] == 'H',
{
    reveal_strlit("GET");
    reveal_strlit("POST");
    reveal_strlit("PUT");
    reveal_strlit("PATCH");
    reveal_strlit("DELETE");
    reveal_strlit("OPTIONS");
    reveal_strlit("HEAD");
}

/// Every method reads back from its name.
pub proof fn lemma_method_names_round_trip(m: HttpMethod)
    ensures
        method_from_str(method_name(m)) == Some(m),
        method_name(m).len() > 0,
        forall|k: int| 0 <= k < method_name(m).len() ==> !is_whitespace(#[trigger] method_name(m)[k]),
{
    lemma_method_literals();
    reveal_strlit("GET");
    reveal_strlit("POST");
    reveal_strlit("PUT");
    reveal_strlit("PATCH");
    reveal_strlit("DELETE");
    reveal_strlit("OPTIONS");
    reveal_strlit("HEAD");
    let n = method_name(m);
    assert(n != "GET"@ ==> m != HttpMethod::GET);
    match m {
        HttpMethod::GET => {},
        HttpMethod::POST => {
            assert(n != "GET"@);
        },
        HttpMethod::PUT => {
            assert(n != "GET"@ && n != "POST"@);
        },
        HttpMethod::PATCH => {
            assert(n != "GET"@ && n != "POST"@ && n != "PUT"@);
        },
        HttpMethod::DELETE => {
            assert(n != "GET"@ && n != "POST"@ && n != "PUT"@ && n != "PATCH"@);
        },
        HttpMethod::OPTIONS => {
            assert(n != "GET"@ && n != "POST"@ && n != "PUT"@ && n != "PATCH"@ && n != "DELETE"@);
        },
        HttpMethod::HEAD => {
            assert(n != "GET"@ && n != "POST"@ && n != "PUT"@ && n != "PATCH"@ && n != "DELETE"@
                && n != "OPTIONS"@);
        },
    }
}

/// `HTTP/1.1` reads as that version.
proof fn lemma_version_1_1()
    ensures
        version_from_str("HTTP/1.1"@) == Some(Version::HTTP1_1),
        "HTTP/1.1"@.len() > 0,
        forall|k: int| 0 <= k < "HTTP/1.1"@.len() ==> !is_whitespace(#[trigger] "HTTP/1.1"@[k]),
{
    reveal_strlit("HTTP/1.1");
    reveal_strlit("HTTP/1.0");
    assert("HTTP/1.1"@[7] != "HTTP/1.0"@[7]);
}

/// A word followed by nothing or by whitespace is the first word.
proof fn lemma_words_word(w: Seq<char>, rest: Seq<char>)
    requires
        w.len() > 0,
        forall|k: int| 0 <= k < w.len() ==> !is_whitespace(#[trigger] w[k]),
        rest.len() == 0 || is_whitespace(rest[0]),
    ensures
        words(w + rest) == seq![w] + words(rest),
{
    let s = w + rest;
    assert(s[0] == w[0]);
    assert(lead_count(s, ws()) == 0);
    assert(s.skip(0) =~= s);
    assert forall|k: int| 0 <= k < w.len() implies non_ws()(#[trigger] s[k]) by {
        assert(s[k] == w[k]);
    }
    lemma_lead_count_skip(s, non_ws(), w.len() as int);
    assert(s.skip(w.len() as int) =~= rest);
    assert(lead_count(rest, non_ws()) == 0);
    assert(s.take(w.len() as int) =~= w);
}

/// A leading space does not change the words.
proof fn lemma_words_space(s: Seq<char>)
    ensures
        words(seq![' '] + s) == words(s),
{
    let x = seq![' '] + s;
    assert(x.drop_first() =~= s);
    lemma_lead_count_bound(s, ws());
    assert(lead_count(x, ws()) == 1 + lead_count(s, ws()));
    assert(x.skip(1 + lead_count(s, ws()) as int) =~= s.skip(lead_count(s, ws()) as int));
}

/// A request line of a method's name, a target and `HTTP/1.1`, separated by single spaces,
/// reads as that method, that target and that version, for every method and every target
/// that is a single word.
pub proof fn lemma_request_line_reads(m: HttpMethod, target: Seq<char>)
    requires
        target.len() > 0,
        forall|k: int| 0 <= k < target.len() ==> !is_whitespace(#[trigger] target[k]),
    ensures
        request_line_spec(method_name(m) + seq![' '] + target + seq![' '] + "HTTP/1.1"@) == Ok::<
            (HttpMethod, Seq<char>, Version),
            RequestError,
        >((m, target, Version::HTTP1_1)),
{
    lemma_method_names_round_trip(m);
    lemma_version_1_1();
    let v = "HTTP/1.1"@;
    let n = method_name(m);
    let tail3 = seq![' '] + v;
    let tail2 = target + tail3;
    let tail1 = seq![' '] + tail2;
    assert(n + seq![' '] + target + seq![' '] + v =~= n + tail1);
    assert(words(v) == seq![v]) by {
        lemma_words_word(v, Seq::empty());
        assert(v + Seq::<char>::empty() =~= v);
        assert(words(Seq::<char>::empty()) =~= Seq::<Seq<char>>::empty());
        assert(seq![v] + Seq::<Seq<char>>::empty() =~= seq![v]);
    }
    assert(words(tail3) == seq![v]) by {
        lemma_words_space(v);
    }
    assert(words(tail2) == seq![target, v]) by {
        lemma_words_word(target, tail3);
        assert(seq![target] + seq![v] =~= seq![target, v]);
    }
    assert(words(tail1) == seq![target, v]) by {
        lemma_words_space(tail2);
    }
    assert(words(n + tail1) == seq![n, target, v]) by {
        lemma_words_word(n, tail1);
        assert(seq![n] + seq![target, v] =~= seq![n, target, v]);
    }
}

/// A header line declares the header named by the text before its first `:`, trimmed and
/// lowercased, with everything after that `:` (further colons included), trimmed, as its
/// value; a later line adds to the headers of the earlier ones.
pub proof fn lemma_header_line(lines: Seq<Seq<char>>, name: Seq<char>, value: Seq<char>)
    requires
        forall|k: int| 0 <= k < name.len() ==> name[k] != ':',
    ensures
        headers_map(lines.push(name + seq![':'] + value)) == headers_map(lines).insert(
            lowercase(trim_spec(name)),
            trim_spec(value),
        ),
{
    let line = name + seq![':'] + value;
    assert forall|k: int| 0 <= k < name.len() implies line[k] != ':' by {
        assert(line[k] == name[k]);
    }
    lemma_char_index_at(line, ':', name.len() as int);
    assert(line.take(name.len() as int) =~= name);
    assert(line.skip(name.len() + 1 as int) =~= value);
    assert(lines.push(line).drop_last() =~= lines);
}

/// Every pair of a query string is read: the key of each `&`-separated pair is present, with
/// the value of the last pair that has that key; and no other key is.
pub proof fn lemma_query_reads_every_pair(query: Seq<char>, j: int)
    requires
        query.len() > 0,
        0 <= j < split_spec(query, '&').len(),
        forall|k: int|
            j < k < split_spec(query, '&').len() ==> query_entry(#[trigger] split_spec(query, '&')[k]).0
                != query_entry(split_spec(query, '&')[j]).0,
    ensures
        parse_query_spec(query).contains_key(query_entry(split_spec(query, '&')[j]).0),
        parse_query_spec(query)[query_entry(split_spec(query, '&')[j]).0] == query_entry(
            split_spec(query, '&')[j],
        ).1,
{
    lemma_pairs_last_wins(split_spec(query, '&'), j);
}

/// The keys of a query string's map are the keys of its pairs.
pub proof fn lemma_query_keys(query: Seq<char>, key: Seq<char>)
    requires
        parse_query_spec(query).contains_key(key),
    ensures
        exists|j: int|
            0 <= j < split_spec(query, '&').len() && query_entry(#[trigger] split_spec(query, '&')[j]).0
                == key,
{
    lemma_pairs_keys(split_spec(query, '&'), key);
}

proof fn lemma_pairs_last_wins(ps: Seq<Seq<char>>, j: int)
    requires
        0 <= j < ps.len(),
        forall|k: int| j < k < ps.len() ==> query_entry(#[trigger] ps[k]).0 != query_entry(ps[j]).0,
    ensures
        query_pairs_map(ps).contains_key(query_entry(ps[j]).0),
        query_pairs_map(ps)[query_entry(ps[j]).0] == query_entry(ps[j]).1,
    decreases ps.len(),
{
    if j < ps.len() - 1 {
        let d = ps.drop_last();
        assert(d[j] == ps[j]);
        assert forall|k: int| j < k < d.len() implies query_entry(#[trigger] d[k]).0 != query_entry(d[j]).0 by {
            assert(d[k] == ps[k]);
        }
        lemma_pairs_last_wins(d, j);
        assert(query_entry(ps[ps.len() - 1]).0 != query_entry(ps[j]).0);
    }
}

proof fn lemma_pairs_keys(ps: Seq<Seq<char>>, key: Seq<char>)
    requires
        query_pairs_map(ps).contains_key(key),
    ensures
        exists|j: int| 0 <= j < ps.len() && query_entry(#[trigger] ps[j]).0 == key,
    decreases ps.len(),
{
    if query_entry(ps.last()).0 != key {
        let d = ps.drop_last();
        lemma_pairs_keys(d, key);
        let j = choose|j: int| 0 <= j < d.len() && query_entry(#[trigger] d[j]).0 == key;
        assert(ps[j] == d[j]);
    } else {
        assert(query_entry(ps[ps.len() - 1]).0 == key);
    }
}

/// A path parameter is bound to the incoming segment at its position, character for
/// character: if route segment `j` names parameter `name` (and no later segment that both
/// paths have names it too), the parameter's value is incoming segment `j`.
pub proof fn lemma_path_param_value(path: Seq<char>, incoming: Seq<char>, j: int, name: Seq<char>)
    requires
        incoming.len() > 0,
        0 <= j < split_spec(path, '/').len(),
        j < split_spec(incoming, '/').len(),
        param_name(split_spec(path, '/')[j]) == Some(name),
        forall|k: int|
            j < k < split_spec(path, '/').len() && k < split_spec(incoming, '/').len()
                ==> param_name(#[trigger] split_spec(path, '/')[k]) != Some(name),
    ensures
        parse_path_spec(path, incoming).contains_key(name),
        parse_path_spec(path, incoming)[name] == split_spec(incoming, '/')[j],
{
    let r = split_spec(path, '/');
    let i = split_spec(incoming, '/');
    let n = if r.len() <= i.len() { r.len() as int } else { i.len() as int };
    lemma_params_last_wins(r, i, n, j, name);
}

proof fn lemma_params_last_wins(
    r: Seq<Seq<char>>,
    i: Seq<Seq<char>>,
    n: int,
    j: int,
    name: Seq<char>,
)
    requires
        0 <= j < n <= r.len(),
        n <= i.len(),
        param_name(r[j]) == Some(name),
        forall|k: int| j < k < n ==> param_name(#[trigger] r[k]) != Some(name),
    ensures
        params_upto(r, i, n).contains_key(name),
        params_upto(r, i, n)[name] == i[j],
    decreases n,
{
    if j < n - 1 {
        lemma_params_last_wins(r, i, n - 1, j, name);
        assert(param_name(r[n - 1]) != Some(name));
    }
}


/// Every version reads back from its name.
pub proof fn lemma_version_names_round_trip()
    ensures
        version_from_str("HTTP/1.0"@) == Some(Version::HTTP1_0),
        version_from_str("HTTP/1.1"@) == Some(Version::HTTP1_1),
        version_from_str("HTTP/2"@) == Some(Version::HTTP2),
{
    reveal_strlit("HTTP/1.1");
    reveal_strlit("HTTP/1.0");
    reveal_strlit("HTTP/2");
    assert("HTTP/1.1"@[7] != "HTTP/1.0"@[7]);
    assert("HTTP/2"@.len() != "HTTP/1.0"@.len());
}

/// The pieces joined back with the separator between them.
pub open spec fn join_pieces(pieces: Seq<Seq<char>>, c: char) -> Seq<char>
    decreases pieces.len(),
{
    if pieces.len() <= 1 {
        if pieces.len() == 0 {
            Seq::empty()
        } else {
            pieces[0]
        }
    } else {
        pieces[0] + seq![c] + join_pieces(pieces.drop_first(), c)
    }
}

/// Splitting at a character cuts the string into pieces that hold no such character and
/// that give back the string when joined with it.
pub proof fn lemma_split_pieces(s: Seq<char>, c: char)
    ensures
        split_spec(s, c).len() >= 1,
        join_pieces(split_spec(s, c), c) == s,
        forall|j: int, k: int|
            0 <= j < split_spec(s, c).len() && 0 <= k < split_spec(s, c)[j].len()
                ==> #[trigger] split_spec(s, c)[j][k] != c,
    decreases s.len(),
{
    lemma_char_index(s, c);
    match char_index(s, c) {
        Some(i) => {
            let rest = s.skip(i + 1);
            lemma_split_pieces(rest, c);
            let p = split_spec(s, c);
            assert(p == seq![s.take(i)] + split_spec(rest, c));
            assert(p.drop_first() =~= split_spec(rest, c));
            assert(s.take(i) + seq![c] + rest =~= s);
            assert forall|j: int, k: int|
                0 <= j < p.len() && 0 <= k < p[j].len() implies #[trigger] p[j][k] != c by {
                if j > 0 {
                    assert(p[j] == split_spec(rest, c)[j - 1]);
                }
            }
        },
        None => {},
    }
}

/// Trimming removes whitespace from the ends only: the result neither starts nor ends with
/// whitespace, and the string is the result with whitespace before and after it.
pub proof fn lemma_trim_only_ends(s: Seq<char>)
    ensures
        trim_spec(s).len() > 0 ==> !is_whitespace(trim_spec(s)[0]) && !is_whitespace(
            trim_spec(s).last(),
        ),
        exists|a: int, b: int|
            0 <= a <= b <= s.len() && s.subrange(a, b) == trim_spec(s) && (forall|k: int|
                0 <= k < a ==> is_whitespace(#[trigger] s[k])) && (forall|k: int|
                b <= k < s.len() ==> is_whitespace(#[trigger] s[k])),
{
    lemma_lead_count_bound(s, ws());
    let a = lead_count(s, ws()) as int;
    let t = s.skip(a);
    lemma_trail_count_bound(t, ws());
    let b = s.len() - trail_count(t, ws());
    assert(trim_spec(s) =~= s.subrange(a, b));
    assert forall|k: int| b <= k < s.len() implies is_whitespace(#[trigger] s[k]) by {
        assert(s[k] == t[k - a]);
        assert(ws()(t[k - a]));
    }
    assert forall|k: int| 0 <= k < a implies is_whitespace(#[trigger] s[k]) by {
        assert(ws()(s[k]));
    }
    if trim_spec(s).len() > 0 {
        assert(trim_spec(s)[0] == s[a]);
        assert(!ws()(s[a]));
        assert(trim_spec(s).last() == t[t.len() - trail_count(t, ws()) - 1]);
    }
}

} // verus!
