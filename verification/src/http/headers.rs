//! Header lines of an HTTP request.
use vstd::prelude::*;
use crate::strmap::{pairs_map, StrMap};
use crate::text::{lowercase, split_once_char, split_once_spec, trim, trim_spec};
use crate::utils::standardize;

verus! {

/// The characters of each string.
pub open spec fn string_views(v: Seq<String>) -> Seq<Seq<char>> {
    v.map_values(|s: String| s@)
}

/// The header that one line declares: the text before the first `:` trimmed and lowercased,
/// and the text after it trimmed. A line without `:` declares none.
pub open spec fn header_entry(line: Seq<char>) -> Option<(Seq<char>, Seq<char>)> {
    match split_once_spec(line, ':') {
        Some((k, v)) => Some((lowercase(trim_spec(k)), trim_spec(v))),
        None => None,
    }
}

/// The headers that a sequence of lines declares; a later line wins over an earlier one
/// with the same name.
pub open spec fn headers_map(lines: Seq<Seq<char>>) -> Map<Seq<char>, Seq<char>>
    decreases lines.len(),
{
    if lines.len() == 0 {
        Map::empty()
    } else {
        let m = headers_map(lines.drop_last());
        match header_entry(lines.last()) {
            Some((k, v)) => m.insert(k, v),
            None => m,
        }
    }
}

/// The headers declared by `lines` from index `start` on.
pub fn parse_header_lines(lines: &[String], start: usize) -> (r: StrMap)
    requires
        start <= lines@.len(),
    ensures
        r@ == headers_map(string_views(lines@).skip(start as int)),
{
    let ghost all = string_views(lines@).skip(start as int);
    let mut pairs: Vec<(String, String)> = Vec::new();
    let mut i: usize = start;
    assert(all.take(0) =~= Seq::<Seq<char>>::empty());
    while i < lines.len()
        invariant
            start <= i <= lines@.len(),
            all == string_views(lines@).skip(start as int),
            pairs_map(pairs@) == headers_map(all.take(i - start)),
        decreases lines@.len() - i,
    {
        let line = lines[i].as_str();
        proof {
            assert(all.take(i - start + 1).drop_last() =~= all.take(i - start));
            assert(all.take(i - start + 1).last() == line@);
        }
        match split_once_char(line, ':') {
            Some((key, value)) => {
                let ghost before = pairs@;
                pairs.push((standardize(key), trim(value).to_string()));
                assert(pairs@.drop_last() =~= before);
            },
            None => {},
        }
        i += 1;
    }
    assert(all.take(i - start) =~= all);
    StrMap::from_pairs(pairs)
}

/// Reads the headers of a request from its header lines.
pub fn parse_headers(lines: &[String]) -> (r: StrMap)
    ensures
        r@ == headers_map(string_views(lines@)),
{
    let r = parse_header_lines(lines, 0);
    assert(string_views(lines@).skip(0) =~= string_views(lines@));
    r
}

} // verus!
