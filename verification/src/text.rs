//! Character-level string operations with their specifications over `Seq<char>`.
use vstd::prelude::*;

verus! {

/// The Unicode `White_Space` property, which `char::is_whitespace` and `str::trim` use.
pub open spec fn is_whitespace(c: char) -> bool {
    ||| ('\u{9}' <= c && c <= '\u{d}')
    ||| c == ' '
    ||| c == '\u{85}'
    ||| c == '\u{a0}'
    ||| c == '\u{1680}'
    ||| ('\u{2000}' <= c && c <= '\u{200a}')
    ||| c == '\u{2028}'
    ||| c == '\u{2029}'
    ||| c == '\u{202f}'
    ||| c == '\u{205f}'
    ||| c == '\u{3000}'
}

/// The predicate "is whitespace" as a value.
pub open spec fn ws() -> spec_fn(char) -> bool {
    |c: char| is_whitespace(c)
}

/// The predicate "is not whitespace" as a value.
pub open spec fn non_ws() -> spec_fn(char) -> bool {
    |c: char| !is_whitespace(c)
}

/// The predicate "equals `c`" as a value.
pub open spec fn is_char(c: char) -> spec_fn(char) -> bool {
    |x: char| x == c
}

/// Number of leading characters of `s` that satisfy `p`.
pub open spec fn lead_count(s: Seq<char>, p: spec_fn(char) -> bool) -> nat
    decreases s.len(),
{
    if s.len() > 0 && p(s[0]) {
        1 + lead_count(s.drop_first(), p)
    } else {
        0
    }
}

/// Number of trailing characters of `s` that satisfy `p`.
pub open spec fn trail_count(s: Seq<char>, p: spec_fn(char) -> bool) -> nat
    decreases s.len(),
{
    if s.len() > 0 && p(s.last()) {
        1 + trail_count(s.drop_last(), p)
    } else {
        0
    }
}

/// `s` without its leading characters that satisfy `p`.
pub open spec fn trim_start_by(s: Seq<char>, p: spec_fn(char) -> bool) -> Seq<char> {
    s.skip(lead_count(s, p) as int)
}

/// `s` without its trailing characters that satisfy `p`.
pub open spec fn trim_end_by(s: Seq<char>, p: spec_fn(char) -> bool) -> Seq<char> {
    s.take(s.len() - trail_count(s, p))
}

/// `str::trim`: `s` without leading and trailing whitespace.
pub open spec fn trim_spec(s: Seq<char>) -> Seq<char> {
    trim_end_by(trim_start_by(s, ws()), ws())
}

/// Index of the first occurrence of `c` in `s`.
pub open spec fn char_index(s: Seq<char>, c: char) -> Option<int>
    decreases s.len(),
{
    if s.len() == 0 {
        None
    } else if s[0] == c {
        Some(0)
    } else {
        match char_index(s.drop_first(), c) {
            Some(i) => Some(i + 1),
            None => None,
        }
    }
}

/// `str::split` on a character: the pieces of `s` between occurrences of `c`.
pub open spec fn split_spec(s: Seq<char>, c: char) -> Seq<Seq<char>>
    decreases s.len(),
{
    match char_index(s, c) {
        Some(i) => if 0 <= i < s.len() {
            seq![s.take(i)] + split_spec(s.skip(i + 1), c)
        } else {
            seq![s]
        },
        None => seq![s],
    }
}

/// `str::split_once` on a character.
pub open spec fn split_once_spec(s: Seq<char>, c: char) -> Option<(Seq<char>, Seq<char>)> {
    match char_index(s, c) {
        Some(i) => Some((s.take(i), s.skip(i + 1))),
        None => None,
    }
}

/// `str::split_whitespace`: the maximal runs of non-whitespace characters of `s`.
pub open spec fn words(s: Seq<char>) -> Seq<Seq<char>>
    decreases s.len(),
{
    let lead = lead_count(s, ws());
    if lead <= s.len() {
        let t = s.skip(lead as int);
        let w = lead_count(t, non_ws());
        if t.len() > 0 && 0 < w <= t.len() {
            seq![t.take(w as int)] + words(t.skip(w as int))
        } else {
            seq![]
        }
    } else {
        seq![]
    }
}

/// `s` holds two consecutive occurrences of `c`.
pub open spec fn has_pair(s: Seq<char>, c: char) -> bool {
    exists|i: int| 0 <= i && i + 1 < s.len() && #[trigger] s[i] == c && s[i + 1] == c
}

/// The views of a sequence of string slices.
pub open spec fn views(v: Seq<&str>) -> Seq<Seq<char>> {
    v.map_values(|p: &str| p@)
}

pub proof fn lemma_lead_count_bound(s: Seq<char>, p: spec_fn(char) -> bool)
    ensures
        lead_count(s, p) <= s.len(),
        forall|k: int| 0 <= k < lead_count(s, p) ==> p(#[trigger] s[k]),
        lead_count(s, p) < s.len() ==> !p(s[lead_count(s, p) as int]),
    decreases s.len(),
{
    if s.len() > 0 && p(s[0]) {
        lemma_lead_count_bound(s.drop_first(), p);
        assert forall|k: int| 0 <= k < lead_count(s, p) implies p(#[trigger] s[k]) by {
            if k > 0 {
                assert(s[k] == s.drop_first()[k - 1]);
            }
        }
    }
}

pub proof fn lemma_trail_count_bound(s: Seq<char>, p: spec_fn(char) -> bool)
    ensures
        trail_count(s, p) <= s.len(),
        forall|k: int| s.len() - trail_count(s, p) <= k < s.len() ==> p(#[trigger] s[k]),
        trail_count(s, p) < s.len() ==> !p(s[s.len() - trail_count(s, p) - 1]),
    decreases s.len(),
{
    if s.len() > 0 && p(s.last()) {
        lemma_trail_count_bound(s.drop_last(), p);
        assert forall|k: int| s.len() - trail_count(s, p) <= k < s.len() implies p(#[trigger] s[k]) by {
            if k < s.len() - 1 {
                assert(s[k] == s.drop_last()[k]);
            }
        }
    }
}

/// If the first `i` characters satisfy `p`, the leading run is `i` plus the run after them.
pub proof fn lemma_lead_count_skip(s: Seq<char>, p: spec_fn(char) -> bool, i: int)
    requires
        0 <= i <= s.len(),
        forall|k: int| 0 <= k < i ==> p(#[trigger] s[k]),
    ensures
        lead_count(s, p) == i + lead_count(s.skip(i), p),
    decreases i,
{
    if i == 0 {
        assert(s.skip(0) =~= s);
    } else {
        assert(p(s[0]));
        let t = s.drop_first();
        assert forall|k: int| 0 <= k < i - 1 implies p(#[trigger] t[k]) by {
            assert(t[k] == s[k + 1]);
        }
        lemma_lead_count_skip(t, p, i - 1);
        assert(t.skip(i - 1) =~= s.skip(i));
    }
}

/// If the characters from `j` on satisfy `p`, the trailing run is those plus the run before `j`.
pub proof fn lemma_trail_count_take(s: Seq<char>, p: spec_fn(char) -> bool, j: int)
    requires
        0 <= j <= s.len(),
        forall|k: int| j <= k < s.len() ==> p(#[trigger] s[k]),
    ensures
        trail_count(s, p) == (s.len() - j) + trail_count(s.take(j), p),
    decreases s.len() - j,
{
    if j == s.len() {
        assert(s.take(j) =~= s);
    } else {
        assert(p(s.last()));
        let t = s.drop_last();
        lemma_trail_count_take(t, p, j);
        assert(t.take(j) =~= s.take(j));
    }
}

/// `char_index` finds the first occurrence.
pub proof fn lemma_char_index(s: Seq<char>, c: char)
    ensures
        match char_index(s, c) {
            Some(i) => 0 <= i < s.len() && s[i] == c && forall|k: int| 0 <= k < i ==> s[k] != c,
            None => forall|k: int| 0 <= k < s.len() ==> s[k] != c,
        },
    decreases s.len(),
{
    if s.len() > 0 && s[0] != c {
        let t = s.drop_first();
        lemma_char_index(t, c);
        match char_index(t, c) {
            Some(i) => {
                assert forall|k: int| 0 <= k < i + 1 implies s[k] != c by {
                    if k > 0 {
                        assert(s[k] == t[k - 1]);
                    }
                }
            },
            None => {
                assert forall|k: int| 0 <= k < s.len() implies s[k] != c by {
                    if k > 0 {
                        assert(s[k] == t[k - 1]);
                    }
                }
            },
        }
    }
}

/// The first occurrence of `c` is at `i`.
pub proof fn lemma_char_index_at(s: Seq<char>, c: char, i: int)
    requires
        0 <= i < s.len(),
        s[i] == c,
        forall|k: int| 0 <= k < i ==> s[k] != c,
    ensures
        char_index(s, c) == Some(i),
{
    lemma_char_index(s, c);
    match char_index(s, c) {
        Some(j) => {
            if j < i {
                assert(s[j] != c);
            } else if j > i {
                assert(s[i] != c);
            }
        },
        None => {
            assert(s[i] != c);
        },
    }
}

/// `c` does not occur in `s`.
pub proof fn lemma_char_index_none(s: Seq<char>, c: char)
    requires
        forall|k: int| 0 <= k < s.len() ==> s[k] != c,
    ensures
        char_index(s, c) == None::<int>,
{
    lemma_char_index(s, c);
    if let Some(j) = char_index(s, c) {
        assert(s[j] != c);
    }
}

/// The characters of `s`.
pub fn to_chars(s: &str) -> (v: Vec<char>)
    ensures
        v@ == s@,
{
    let mut v: Vec<char> = Vec::new();
    for c in it: s.chars()
        invariant
            v@ == it.seq().take(it.index() as int),
    {
        v.push(c);
    }
    v
}

/// `char::is_whitespace`.
pub fn char_is_whitespace(c: char) -> (r: bool)
    ensures
        r == is_whitespace(c),
{
    ('\u{9}' <= c && c <= '\u{d}') || c == ' ' || c == '\u{85}' || c == '\u{a0}' || c == '\u{1680}'
        || ('\u{2000}' <= c && c <= '\u{200a}') || c == '\u{2028}' || c == '\u{2029}' || c
        == '\u{202f}' || c == '\u{205f}' || c == '\u{3000}'
}

/// Whether `a` and `b` hold the same characters.
pub fn str_eq(a: &str, b: &str) -> (r: bool)
    ensures
        r == (a@ == b@),
{
    let va = to_chars(a);
    let vb = to_chars(b);
    if va.len() != vb.len() {
        return false;
    }
    let mut i: usize = 0;
    while i < va.len()
        invariant
            va@ == a@,
            vb@ == b@,
            va.len() == vb.len(),
            i <= va.len(),
            forall|k: int| 0 <= k < i ==> va@[k] == vb@[k],
        decreases va.len() - i,
    {
        if va[i] != vb[i] {
            return false;
        }
        i += 1;
    }
    assert(va@ =~= vb@);
    true
}

/// `str::trim`.
pub fn trim(s: &str) -> (r: &str)
    ensures
        r@ == trim_spec(s@),
{
    let v = to_chars(s);
    let n = v.len();
    let mut a: usize = 0;
    while a < n && char_is_whitespace(v[a])
        invariant
            v@ == s@,
            n == v.len(),
            a <= n,
            forall|k: int| 0 <= k < a ==> is_whitespace(#[trigger] v@[k]),
        decreases n - a,
    {
        a += 1;
    }
    proof {
        lemma_lead_count_skip(s@, ws(), a as int);
        assert(lead_count(s@.skip(a as int), ws()) == 0) by {
            if a < n {
                assert(s@.skip(a as int)[0] == s@[a as int]);
            }
        }
    }
    let mut j: usize = n;
    while j > a && char_is_whitespace(v[j - 1])
        invariant
            v@ == s@,
            n == v.len(),
            a <= j <= n,
            forall|k: int| j <= k < n ==> is_whitespace(#[trigger] v@[k]),
        decreases j,
    {
        j -= 1;
    }
    let ghost t = s@.skip(a as int);
    proof {
        assert forall|k: int| j - a <= k < t.len() implies ws()(#[trigger] t[k]) by {
            assert(t[k] == s@[k + a]);
        }
        lemma_trail_count_take(t, ws(), j - a);
        assert(trail_count(t.take(j - a), ws()) == 0) by {
            if j > a {
                assert(t.take(j - a).last() == s@[j - 1]);
            }
        }
        assert(t.take(j - a) =~= s@.subrange(a as int, j as int));
    }
    s.substring_char(a, j)
}


/// Index of the first occurrence of `c` in `s`.
pub fn find_char(s: &str, c: char) -> (r: Option<usize>)
    ensures
        match r {
            Some(i) => char_index(s@, c) == Some(i as int),
            None => char_index(s@, c) == None::<int>,
        },
{
    let v = to_chars(s);
    let mut i: usize = 0;
    while i < v.len()
        invariant
            v@ == s@,
            i <= v.len(),
            forall|k: int| 0 <= k < i ==> v@[k] != c,
        decreases v.len() - i,
    {
        if v[i] == c {
            proof {
                lemma_char_index_at(s@, c, i as int);
            }
            return Some(i);
        }
        i += 1;
    }
    proof {
        lemma_char_index_none(s@, c);
    }
    None
}

/// `str::split_once` on a character.
pub fn split_once_char(s: &str, c: char) -> (r: Option<(&str, &str)>)
    ensures
        match r {
            Some((a, b)) => split_once_spec(s@, c) == Some((a@, b@)),
            None => split_once_spec(s@, c) == None::<(Seq<char>, Seq<char>)>,
        },
{
    match find_char(s, c) {
        Some(i) => {
            proof {
                lemma_char_index(s@, c);
            }
            let n = s.unicode_len();
            let a = s.substring_char(0, i);
            let b = s.substring_char(i + 1, n);
            assert(a@ =~= s@.take(i as int));
            assert(b@ =~= s@.skip(i + 1));
            Some((a, b))
        },
        None => None,
    }
}

/// `str::split` on a character.
pub fn split_char(s: &str, c: char) -> (r: Vec<&str>)
    ensures
        views(r@) == split_spec(s@, c),
{
    let v = to_chars(s);
    let n = v.len();
    let mut parts: Vec<&str> = Vec::new();
    let mut start: usize = 0;
    let mut j: usize = 0;
    assert(views(parts@) + split_spec(s@.skip(0), c) =~= split_spec(s@, c)) by {
        assert(s@.skip(0) =~= s@);
    }
    while j < n
        invariant
            v@ == s@,
            n == v.len(),
            start <= j <= n,
            forall|k: int| start <= k < j ==> v@[k] != c,
            views(parts@) + split_spec(s@.skip(start as int), c) == split_spec(s@, c),
        decreases n - j,
    {
        if v[j] == c {
            let piece = s.substring_char(start, j);
            let ghost t = s@.skip(start as int);
            proof {
                assert forall|k: int| 0 <= k < j - start implies t[k] != c by {
                    assert(t[k] == s@[k + start]);
                }
                lemma_char_index_at(t, c, j - start);
                assert(t.take(j - start) =~= piece@);
                assert(t.skip(j - start + 1) =~= s@.skip(j + 1));
                assert(views(parts@.push(piece)) =~= views(parts@).push(piece@));
                assert(views(parts@).push(piece@) + split_spec(s@.skip(j + 1), c) =~= views(
                    parts@,
                ) + split_spec(t, c));
            }
            parts.push(piece);
            start = j + 1;
        }
        j += 1;
    }
    let piece = s.substring_char(start, n);
    proof {
        let t = s@.skip(start as int);
        assert forall|k: int| 0 <= k < t.len() implies t[k] != c by {
            assert(t[k] == s@[k + start]);
        }
        lemma_char_index_none(t, c);
        assert(t =~= piece@);
        assert(views(parts@.push(piece)) =~= views(parts@).push(piece@));
        assert(views(parts@).push(piece@) =~= views(parts@) + split_spec(t, c));
    }
    parts.push(piece);
    parts
}

/// `str::split_whitespace`.
pub fn split_whitespace(s: &str) -> (r: Vec<&str>)
    ensures
        views(r@) == words(s@),
{
    let v = to_chars(s);
    let n = v.len();
    let mut parts: Vec<&str> = Vec::new();
    let mut i: usize = 0;
    assert(views(parts@) + words(s@.skip(0)) =~= words(s@)) by {
        assert(s@.skip(0) =~= s@);
    }
    while i < n
        invariant
            v@ == s@,
            n == v.len(),
            i <= n,
            views(parts@) + words(s@.skip(i as int)) == words(s@),
        decreases n - i,
    {
        let ghost t = s@.skip(i as int);
        if char_is_whitespace(v[i]) {
            proof {
                assert(t[0] == s@[i as int]);
                lemma_lead_count_skip(t, ws(), 1);
                assert(t.skip(1) =~= s@.skip(i + 1));
                lemma_lead_count_bound(t, ws());
                lemma_lead_count_bound(s@.skip(i + 1), ws());
                assert(t.skip(lead_count(t, ws()) as int) =~= s@.skip(i + 1).skip(
                    lead_count(s@.skip(i + 1), ws()) as int,
                ));
            }
            i += 1;
        } else {
            let mut j: usize = i + 1;
            while j < n && !char_is_whitespace(v[j])
                invariant
                    v@ == s@,
                    n == v.len(),
                    i < j <= n,
                    forall|k: int| i <= k < j ==> !is_whitespace(#[trigger] v@[k]),
                decreases n - j,
            {
                j += 1;
            }
            let piece = s.substring_char(i, j);
            proof {
                assert(t[0] == s@[i as int]);
                assert(lead_count(t, ws()) == 0);
                assert(t.skip(0) =~= t);
                assert forall|k: int| 0 <= k < j - i implies non_ws()(#[trigger] t[k]) by {
                    assert(t[k] == s@[k + i]);
                }
                lemma_lead_count_skip(t, non_ws(), j - i);
                assert(lead_count(t.skip(j - i), non_ws()) == 0) by {
                    if j < n {
                        assert(t.skip(j - i)[0] == s@[j as int]);
                    }
                }
                assert(t.take(j - i) =~= piece@);
                assert(t.skip(j - i) =~= s@.skip(j as int));
                assert(views(parts@.push(piece)) =~= views(parts@).push(piece@));
                assert(views(parts@).push(piece@) + words(s@.skip(j as int)) =~= views(parts@)
                    + words(t));
            }
            parts.push(piece);
            i = j;
        }
    }
    proof {
        let t = s@.skip(i as int);
        assert(t.len() == 0);
        assert(views(parts@) + words(t) =~= views(parts@));
    }
    parts
}

/// `str::starts_with` on a character.
pub fn starts_with_char(s: &str, c: char) -> (r: bool)
    ensures
        r == (s@.len() > 0 && s@[0] == c),
{
    let n = s.unicode_len();
    n > 0 && s.get_char(0) == c
}

/// `str::contains` on a pattern of two equal characters.
pub fn contains_pair(s: &str, c: char) -> (r: bool)
    ensures
        r == has_pair(s@, c),
{
    let v = to_chars(s);
    let mut i: usize = 0;
    while i < v.len() && i + 1 < v.len()
        invariant
            v@ == s@,
            i <= v.len(),
            forall|k: int| 0 <= k < i && k + 1 < v.len() ==> !(#[trigger] v@[k] == c && v@[k + 1] == c),
        decreases v.len() - i,
    {
        if v[i] == c && v[i + 1] == c {
            return true;
        }
        i += 1;
    }
    false
}

/// `str::trim_start_matches` on a character.
pub fn trim_start_char(s: &str, c: char) -> (r: &str)
    ensures
        r@ == trim_start_by(s@, is_char(c)),
{
    let v = to_chars(s);
    let n = v.len();
    let mut a: usize = 0;
    while a < n && v[a] == c
        invariant
            v@ == s@,
            n == v.len(),
            a <= n,
            forall|k: int| 0 <= k < a ==> is_char(c)(#[trigger] v@[k]),
        decreases n - a,
    {
        a += 1;
    }
    proof {
        lemma_lead_count_skip(s@, is_char(c), a as int);
        assert(lead_count(s@.skip(a as int), is_char(c)) == 0) by {
            if a < n {
                assert(s@.skip(a as int)[0] == s@[a as int]);
            }
        }
    }
    s.substring_char(a, n)
}

/// `str::trim_end_matches` on a character.
pub fn trim_end_char(s: &str, c: char) -> (r: &str)
    ensures
        r@ == trim_end_by(s@, is_char(c)),
{
    let v = to_chars(s);
    let n = v.len();
    let mut j: usize = n;
    while j > 0 && v[j - 1] == c
        invariant
            v@ == s@,
            n == v.len(),
            j <= n,
            forall|k: int| j <= k < n ==> is_char(c)(#[trigger] v@[k]),
        decreases j,
    {
        j -= 1;
    }
    proof {
        lemma_trail_count_take(s@, is_char(c), j as int);
        assert(trail_count(s@.take(j as int), is_char(c)) == 0) by {
            if j > 0 {
                assert(s@.take(j as int).last() == s@[j - 1]);
            }
        }
    }
    s.substring_char(0, j)
}


/// A decimal digit.
pub open spec fn is_digit(c: char) -> bool {
    '0' <= c && c <= '9'
}

/// The value of a decimal digit.
pub open spec fn digit_value(c: char) -> int {
    c as int - '0' as int
}

/// The value of a string of decimal digits.
pub open spec fn decimal_value(s: Seq<char>) -> int
    decreases s.len(),
{
    if s.len() == 0 {
        0
    } else {
        decimal_value(s.drop_last()) * 10 + digit_value(s.last())
    }
}

/// Every character of `s` is a decimal digit.
pub open spec fn all_digits(s: Seq<char>) -> bool {
    forall|k: int| 0 <= k < s.len() ==> is_digit(#[trigger] s[k])
}

/// What `str::parse::<usize>` accepts: an optional `+`, then at least one decimal digit,
/// with a value that fits in `usize`.
pub open spec fn usize_from_str(s: Seq<char>) -> Option<int> {
    let d = if s.len() > 0 && s[0] == '+' {
        s.drop_first()
    } else {
        s
    };
    if d.len() > 0 && all_digits(d) && decimal_value(d) <= usize::MAX {
        Some(decimal_value(d))
    } else {
        None
    }
}

pub proof fn lemma_decimal_value_prefix(s: Seq<char>, j: int)
    requires
        all_digits(s),
        0 <= j <= s.len(),
    ensures
        0 <= decimal_value(s.take(j)) <= decimal_value(s),
    decreases s.len(),
{
    if j == s.len() {
        assert(s.take(j) =~= s);
        if s.len() > 0 {
            lemma_decimal_value_prefix(s.drop_last(), j - 1);
        }
    } else {
        let t = s.drop_last();
        assert(t.take(j) =~= s.take(j));
        lemma_decimal_value_prefix(t, j);
        assert(is_digit(s[s.len() - 1]));
    }
}

/// `str::parse::<usize>`.
pub fn parse_usize(s: &str) -> (r: Option<usize>)
    ensures
        match r {
            Some(n) => usize_from_str(s@) == Some(n as int),
            None => usize_from_str(s@) == None::<int>,
        },
{
    let v = to_chars(s);
    let n = v.len();
    let start: usize = if n > 0 && v[0] == '+' {
        1
    } else {
        0
    };
    let ghost d = s@.skip(start as int);
    assert(d =~= (if s@.len() > 0 && s@[0] == '+' {
        s@.drop_first()
    } else {
        s@
    }));
    if start >= n {
        return None;
    }
    let mut i: usize = start;
    let mut acc: usize = 0;
    assert(d.take(0) =~= Seq::<char>::empty());
    while i < n
        invariant
            v@ == s@,
            n == v.len(),
            start <= i <= n,
            d == s@.skip(start as int),
            d == (if s@.len() > 0 && s@[0] == '+' {
                s@.drop_first()
            } else {
                s@
            }),
            forall|k: int| 0 <= k < i - start ==> is_digit(#[trigger] d[k]),
            acc == decimal_value(d.take(i - start)),
        decreases n - i,
    {
        let c = v[i];
        if !('0' <= c && c <= '9') {
            assert(!is_digit(d[i - start]));
            assert(!all_digits(d));
            return None;
        }
        let dv = (c as u32 - '0' as u32) as usize;
        proof {
            assert(d.take(i - start + 1).drop_last() =~= d.take(i - start));
            assert(d[i - start] == c);
        }
        let next = match acc.checked_mul(10) {
            Some(m) => m.checked_add(dv),
            None => None,
        };
        match next {
            Some(m) => {
                acc = m;
            },
            None => {
                proof {
                    if all_digits(d) {
                        lemma_decimal_value_prefix(d, i - start + 1);
                    }
                }
                return None;
            },
        }
        i += 1;
    }
    proof {
        assert(d.take(n - start) =~= d);
    }
    Some(acc)
}

/// The lowercase form of a string, as `str::to_lowercase` computes it (Unicode case mapping).
pub uninterp spec fn lowercase(s: Seq<char>) -> Seq<char>;

/// Calls `str::to_lowercase`. The contract claims only that the result is a function of the
/// characters of `s` (named `lowercase`); the Unicode case tables are not written out.
#[verifier::external_body]
pub fn to_lowercase(s: &str) -> (r: String)
    ensures
        r@ == lowercase(s@),
{
    s.to_lowercase()
}

/// Calls `String::from_utf8`: it succeeds exactly when the bytes are valid UTF-8, and the
/// string then holds the decoded characters.
#[verifier::external_body]
pub fn string_from_utf8(bytes: Vec<u8>) -> (r: Option<String>)
    ensures
        r is Some <==> vstd::utf8::valid_utf8(bytes@),
        r matches Some(t) ==> t@ == vstd::utf8::decode_utf8(bytes@),
{
    String::from_utf8(bytes).ok()
}

} // verus!
