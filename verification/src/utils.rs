//! Path helpers shared by the request parser and the router.
use vstd::prelude::*;
use crate::text::{
    is_char, lowercase, split_once_char, split_once_spec, to_lowercase, trim, trim_end_by, trim_end_char,
    trim_spec, trim_start_by, trim_start_char,
};

verus! {

/// The part of `s` before the first `?` (all of `s` when it has none).
pub open spec fn path_part(s: Seq<char>) -> Seq<char> {
    match split_once_spec(s, '?') {
        Some((p, _)) => p,
        None => s,
    }
}

/// The part of `s` after the first `?` (empty when it has none).
pub open spec fn query_part(s: Seq<char>) -> Seq<char> {
    match split_once_spec(s, '?') {
        Some((_, q)) => q,
        None => Seq::empty(),
    }
}

/// `prefix` and `path` joined by exactly one `/`: the slashes at the end of `prefix` and at
/// the start of `path` are dropped; an empty result is `/`.
pub open spec fn join_spec(prefix: Seq<char>, path: Seq<char>) -> Seq<char> {
    let a = trim_end_by(prefix, is_char('/'));
    let b = trim_start_by(path, is_char('/'));
    if b.len() == 0 {
        if a.len() == 0 {
            seq!['/']
        } else {
            a
        }
    } else {
        a + seq!['/'] + b
    }
}

/// Splits a request target into its path and its query string, at the first `?`.
pub fn split_path_query(path: &str) -> (r: (&str, &str))
    ensures
        r.0@ == path_part(path@),
        r.1@ == query_part(path@),
{
    match split_once_char(path, '?') {
        Some((p, q)) => (p, q),
        None => {
            let empty = path.substring_char(0, 0);
            assert(empty@ =~= Seq::<char>::empty());
            (path, empty)
        },
    }
}

/// Joins a route prefix and a path with one `/` between them.
pub fn join_path(prefix: &str, path: &str) -> (r: String)
    ensures
        r@ == join_spec(prefix@, path@),
{
    let a = trim_end_char(prefix, '/');
    let b = trim_start_char(path, '/');
    proof {
        reveal_strlit("/");
    }
    if b.is_empty() {
        if a.is_empty() {
            let r = "/".to_string();
            assert(r@ =~= seq!['/']);
            r
        } else {
            a.to_string()
        }
    } else {
        let mut r = a.to_string();
        r.append("/");
        r.append(b);
        r
    }
}

/// A header name in its standard form: trimmed and lowercased.
pub fn standardize(key: &str) -> (r: String)
    ensures
        r@ == lowercase(trim_spec(key@)),
{
    to_lowercase(trim(key))
}

} // verus!
