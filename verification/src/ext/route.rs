//! Reading a request target: its path and its query, the query's
//! parameters, and the parameters that a path pattern captures.
//!
//! A target is a path, and after the first `?` a query. A query is a list of
//! `key=value` pieces between `&`; keys and values are taken as they stand.
//! A pattern is a path in which a segment of the form `{name}` stands for
//! any segment that is not empty.

use vstd::prelude::*;

use crate::pairs::{collapse, lemma_collapse, pairs_view, unique_keys, upsert, upsert_pair};
use crate::text::{find, lemma_find, lemma_find_is, piece, ranges_cut, same_range, split, split_ranges, to_chars};

verus! {

/// The path of a target: what stands before its first `?`.
pub open spec fn path_of(target: Seq<char>) -> Seq<char> {
    target.take(find(target, '?') as int)
}

/// The query of a target: what stands after its first `?`; nothing where
/// there is no `?`.
pub open spec fn query_of(target: Seq<char>) -> Seq<char> {
    let q = find(target, '?') as int;
    if q < target.len() {
        target.skip(q + 1)
    } else {
        Seq::empty()
    }
}

/// The key and the value of one piece of a query: what stands before its
/// first `=`, and what stands after it. A piece without `=` is a key with an
/// empty value.
pub open spec fn pair_of(piece: Seq<char>) -> (Seq<char>, Seq<char>) {
    let e = find(piece, '=') as int;
    if e < piece.len() {
        (piece.take(e), piece.skip(e + 1))
    } else {
        (piece, Seq::empty())
    }
}

/// The pairs of the pieces of a query, in order; empty pieces give none.
pub open spec fn raw_pairs(pieces: Seq<Seq<char>>) -> Seq<(Seq<char>, Seq<char>)> {
    pieces.filter(|p: Seq<char>| p.len() > 0).map_values(|p: Seq<char>| pair_of(p))
}

/// The parameters of a query: a key occurs once, with the value that came
/// with it last.
pub open spec fn query_pairs(query: Seq<char>) -> Seq<(Seq<char>, Seq<char>)> {
    collapse(raw_pairs(split(query, '&')))
}

/// A pattern segment that captures: `{name}` with a name that is not empty.
pub open spec fn is_param(segment: Seq<char>) -> bool {
    segment.len() >= 3 && segment[0] == '{' && segment[segment.len() - 1] == '}'
}

/// The name of a capturing segment.
pub open spec fn param_name(segment: Seq<char>) -> Seq<char> {
    segment.subrange(1, segment.len() - 1)
}

/// Whether a path segment fits a pattern segment: any segment that is not
/// empty fits a capturing segment, and only the same text fits another.
pub open spec fn segment_fits(pattern: Seq<char>, segment: Seq<char>) -> bool {
    if is_param(pattern) {
        segment.len() > 0
    } else {
        pattern == segment
    }
}

/// Whether the segments of a path fit those of a pattern, one by one.
pub open spec fn segments_fit(patterns: Seq<Seq<char>>, segments: Seq<Seq<char>>) -> bool {
    &&& patterns.len() == segments.len()
    &&& forall|i: int| 0 <= i < patterns.len() ==> segment_fits(#[trigger] patterns[i], segments[i])
}

/// What the capturing segments capture, in order; a name that stands twice
/// keeps what it captured last.
pub open spec fn captured(patterns: Seq<Seq<char>>, segments: Seq<Seq<char>>) -> Seq<(Seq<char>, Seq<char>)>
    decreases patterns.len(),
{
    if patterns.len() == 0 {
        Seq::empty()
    } else {
        let before = captured(patterns.drop_last(), segments.drop_last());
        if is_param(patterns.last()) {
            upsert(before, param_name(patterns.last()), segments.last())
        } else {
            before
        }
    }
}

/// Whether a path matches a pattern.
pub open spec fn matches_pattern(pattern: Seq<char>, path: Seq<char>) -> bool {
    segments_fit(split(pattern, '/'), split(path, '/'))
}

/// The path parameters of a path under a pattern: `None` where the path does
/// not match.
pub open spec fn matched(pattern: Seq<char>, path: Seq<char>) -> Option<Seq<(Seq<char>, Seq<char>)>> {
    if matches_pattern(pattern, path) {
        Some(captured(split(pattern, '/'), split(path, '/')))
    } else {
        None
    }
}

/// What one more piece at the end adds to the pairs of a query.
pub proof fn lemma_raw_pairs_push(pieces: Seq<Seq<char>>, piece: Seq<char>)
    ensures
        raw_pairs(pieces.push(piece)) == if piece.len() > 0 {
            raw_pairs(pieces).push(pair_of(piece))
        } else {
            raw_pairs(pieces)
        },
{
    reveal(Seq::filter);
    let full = |p: Seq<char>| p.len() > 0;
    let pair = |p: Seq<char>| pair_of(p);
    assert(pieces.push(piece).drop_last() =~= pieces);
    if piece.len() > 0 {
        assert(pieces.push(piece).filter(full) == pieces.filter(full).push(piece));
        assert(pieces.push(piece).filter(full).map_values(pair) =~= pieces.filter(full).map_values(pair).push(
            pair_of(piece),
        ));
    }
}

/// In the parameters of a query no key occurs twice.
pub proof fn lemma_query_pairs_unique(query: Seq<char>)
    ensures
        unique_keys(query_pairs(query)),
{
    lemma_collapse(raw_pairs(split(query, '&')));
}

/// In what a pattern captures no name occurs twice.
pub proof fn lemma_captured_unique(patterns: Seq<Seq<char>>, segments: Seq<Seq<char>>)
    ensures
        unique_keys(captured(patterns, segments)),
    decreases patterns.len(),
{
    if patterns.len() > 0 {
        lemma_captured_unique(patterns.drop_last(), segments.drop_last());
        crate::pairs::lemma_upsert(
            captured(patterns.drop_last(), segments.drop_last()),
            param_name(patterns.last()),
            segments.last(),
        );
    }
}

/// Where `c` first stands in `chars` between `from` and `to`; `to` where it
/// does not.
pub fn find_char(chars: &Vec<char>, from: usize, to: usize, c: char) -> (at: usize)
    requires
        from <= to <= chars@.len(),
    ensures
        from <= at <= to,
        at - from == find(chars@.subrange(from as int, to as int), c),
{
    let ghost range = chars@.subrange(from as int, to as int);
    let mut at: usize = from;
    while at < to && chars[at] != c
        invariant
            from <= at <= to <= chars@.len(),
            range == chars@.subrange(from as int, to as int),
            forall|j: int| 0 <= j < at - from ==> range[j] != c,
        decreases to - at,
    {
        at += 1;
    }
    proof {
        lemma_find_is(range, c, at - from);
    }
    at
}

/// Cuts a target into its path and its query.
pub fn split_target(target: &str) -> (parts: (String, String))
    ensures
        parts.0@ == path_of(target@),
        parts.1@ == query_of(target@),
{
    let chars = to_chars(target);
    let n = chars.len();
    proof {
        assert(chars@.subrange(0, n as int) =~= chars@);
    }
    let q = find_char(&chars, 0, n, '?');
    let path = piece(target, 0, q);
    let query = if q < n {
        piece(target, q + 1, n)
    } else {
        String::new()
    };
    proof {
        assert(target@.subrange(0, q as int) =~= target@.take(q as int));
        if q < n {
            assert(target@.subrange(q + 1, n as int) =~= target@.skip(q + 1));
        }
    }
    (path, query)
}

/// Reads the parameters of a query.
pub fn parse_query(query: &str) -> (out: Vec<(String, String)>)
    ensures
        pairs_view(out@) == query_pairs(query@),
        unique_keys(pairs_view(out@)),
{
    let chars = to_chars(query);
    let ranges = split_ranges(&chars, '&');
    let ghost pieces = split(query@, '&');
    let mut out: Vec<(String, String)> = Vec::new();
    let mut k: usize = 0;
    proof {
        reveal(Seq::filter);
        assert(pieces.take(0) =~= Seq::empty());
        assert(raw_pairs(pieces.take(0)) =~= Seq::empty());
        assert(pairs_view(out@) =~= Seq::empty());
    }
    while k < ranges.len()
        invariant
            k <= ranges.len(),
            chars@ == query@,
            pieces == split(query@, '&'),
            ranges_cut(chars@, ranges@, pieces),
            pairs_view(out@) == collapse(raw_pairs(pieces.take(k as int))),
        decreases ranges.len() - k,
    {
        let (a, b) = ranges[k];
        let ghost here = pieces[k as int];
        proof {
            assert(ranges@[k as int].0 == a);
            assert(pieces.take(k + 1) =~= pieces.take(k as int).push(here));
            lemma_raw_pairs_push(pieces.take(k as int), here);
            assert(here == chars@.subrange(a as int, b as int));
        }
        if a < b {
            let e = find_char(&chars, a, b, '=');
            let key = piece(query, a, e);
            let value = if e < b {
                piece(query, e + 1, b)
            } else {
                String::new()
            };
            proof {
                assert(key@ =~= here.take(e - a));
                if e < b {
                    assert(value@ =~= here.skip(e - a + 1));
                } else {
                    assert(key@ =~= here);
                }
                assert(pair_of(here) == (key@, value@));
                let raw = raw_pairs(pieces.take(k + 1));
                assert(raw.drop_last() =~= raw_pairs(pieces.take(k as int)));
            }
            upsert_pair(&mut out, key, value);
        }
        k += 1;
    }
    proof {
        assert(pieces.take(ranges.len() as int) =~= pieces);
        lemma_query_pairs_unique(query@);
    }
    out
}

/// Matches a path against a pattern and returns the path parameters, or
/// `None` where the path does not match.
pub fn match_pattern(pattern: &str, path: &str) -> (r: Option<Vec<(String, String)>>)
    ensures
        match r {
            Some(params) => matched(pattern@, path@) == Some(pairs_view(params@)) && unique_keys(
                pairs_view(params@),
            ),
            None => matched(pattern@, path@) is None,
        },
{
    let pattern_chars = to_chars(pattern);
    let path_chars = to_chars(path);
    let pattern_ranges = split_ranges(&pattern_chars, '/');
    let path_ranges = split_ranges(&path_chars, '/');
    let ghost patterns = split(pattern@, '/');
    let ghost segments = split(path@, '/');
    if pattern_ranges.len() != path_ranges.len() {
        return None;
    }
    let mut params: Vec<(String, String)> = Vec::new();
    let mut k: usize = 0;
    proof {
        assert(patterns.take(0) =~= Seq::empty());
        assert(pairs_view(params@) =~= Seq::empty());
    }
    while k < pattern_ranges.len()
        invariant
            k <= pattern_ranges.len(),
            pattern_ranges.len() == path_ranges.len(),
            pattern_chars@ == pattern@,
            path_chars@ == path@,
            patterns == split(pattern@, '/'),
            segments == split(path@, '/'),
            ranges_cut(pattern_chars@, pattern_ranges@, patterns),
            ranges_cut(path_chars@, path_ranges@, segments),
            forall|i: int| 0 <= i < k ==> segment_fits(#[trigger] patterns[i], segments[i]),
            pairs_view(params@) == captured(patterns.take(k as int), segments.take(k as int)),
        decreases pattern_ranges.len() - k,
    {
        let (a, b) = pattern_ranges[k];
        let (c, d) = path_ranges[k];
        let ghost pat = patterns[k as int];
        let ghost seg = segments[k as int];
        proof {
            assert(pattern_ranges@[k as int].0 == a);
            assert(path_ranges@[k as int].0 == c);
            assert(pat == pattern_chars@.subrange(a as int, b as int));
            assert(seg == path_chars@.subrange(c as int, d as int));
            assert(patterns.take(k + 1).drop_last() =~= patterns.take(k as int));
            assert(segments.take(k + 1).drop_last() =~= segments.take(k as int));
        }
        if b - a >= 3 && pattern_chars[a] == '{' && pattern_chars[b - 1] == '}' {
            assert(is_param(pat));
            if c == d {
                assert(!segment_fits(patterns[k as int], segments[k as int]));
                return None;
            }
            let name = piece(pattern, a + 1, b - 1);
            let value = piece(path, c, d);
            proof {
                assert(name@ =~= param_name(pat));
            }
            upsert_pair(&mut params, name, value);
        } else {
            assert(!is_param(pat));
            if !same_range(&pattern_chars, a, b, &path_chars, c, d) {
                assert(!segment_fits(patterns[k as int], segments[k as int]));
                return None;
            }
        }
        k += 1;
    }
    proof {
        assert(patterns.take(k as int) =~= patterns);
        assert(segments.take(k as int) =~= segments);
        lemma_captured_unique(patterns, segments);
    }
    Some(params)
}

} // verus!
