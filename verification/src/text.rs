//! Scanning and cutting sequences: the first occurrence of an item, the
//! pieces between separators, and the same on strings, by characters.

use vstd::prelude::*;
use vstd::string::*;

verus! {

/// How many items stand before the first `x`; the whole length where `s`
/// holds no `x`.
pub open spec fn find<T>(s: Seq<T>, x: T) -> nat
    decreases s.len(),
{
    if s.len() == 0 || s[0] == x {
        0
    } else {
        1 + find(s.drop_first(), x)
    }
}

/// `find` is the index of the first occurrence.
pub proof fn lemma_find<T>(s: Seq<T>, x: T)
    ensures
        find(s, x) <= s.len(),
        forall|j: int| 0 <= j < find(s, x) ==> s[j] != x,
        find(s, x) < s.len() ==> s[find(s, x) as int] == x,
    decreases s.len(),
{
    if s.len() == 0 || s[0] == x {
    } else {
        let rest = s.drop_first();
        lemma_find(rest, x);
        assert forall|j: int| 0 <= j < find(s, x) implies s[j] != x by {
            if j > 0 {
                assert(s[j] == rest[j - 1]);
            }
        }
        if find(s, x) < s.len() {
            assert(s[find(s, x) as int] == rest[find(rest, x) as int]);
        }
    }
}

/// An index with no `x` before it, which holds `x` or is the end, is what
/// `find` gives.
pub proof fn lemma_find_is<T>(s: Seq<T>, x: T, m: int)
    requires
        0 <= m <= s.len(),
        forall|j: int| 0 <= j < m ==> s[j] != x,
        m < s.len() ==> s[m] == x,
    ensures
        find(s, x) == m,
{
    lemma_find(s, x);
    let k = find(s, x) as int;
    if k < m {
        assert(s[k] == x);
    } else if m < k {
        assert(s[m] == x);
    }
}

/// The pieces of `s` between occurrences of `sep`, in order. There is always
/// at least one piece; a piece may be empty.
pub open spec fn split<T>(s: Seq<T>, sep: T) -> Seq<Seq<T>>
    decreases s.len(),
{
    let i = find(s, sep) as int;
    if i >= s.len() {
        seq![s]
    } else {
        seq![s.take(i)] + split(s.skip(i + 1), sep)
    }
}

/// Each piece as a range of indices into `s`.
pub open spec fn ranges_cut<T>(s: Seq<T>, ranges: Seq<(usize, usize)>, pieces: Seq<Seq<T>>) -> bool {
    &&& ranges.len() == pieces.len()
    &&& forall|k: int|
        0 <= k < ranges.len() ==> {
            &&& (#[trigger] ranges[k]).0 <= ranges[k].1 <= s.len()
            &&& s.subrange(ranges[k].0 as int, ranges[k].1 as int) == pieces[k]
        }
}

/// Cuts `s` at each `sep` and returns where each piece starts and ends.
pub fn split_ranges(s: &Vec<char>, sep: char) -> (ranges: Vec<(usize, usize)>)
    ensures
        ranges_cut(s@, ranges@, split(s@, sep)),
{
    let mut ranges: Vec<(usize, usize)> = Vec::new();
    let mut start: usize = 0;
    let mut i: usize = 0;
    let ghost mut done: Seq<Seq<char>> = Seq::empty();
    proof {
        assert(s@.skip(0) =~= s@);
        assert(done + split(s@, sep) =~= split(s@, sep));
    }
    while i < s.len()
        invariant
            start <= i <= s.len(),
            forall|j: int| start <= j < i ==> s@[j] != sep,
            split(s@, sep) == done + split(s@.skip(start as int), sep),
            ranges_cut(s@, ranges@, done),
        decreases s.len() - i,
    {
        if s[i] == sep {
            proof {
                let tail = s@.skip(start as int);
                assert forall|j: int| 0 <= j < i - start implies tail[j] != sep by {
                    assert(tail[j] == s@[start + j]);
                }
                lemma_find_is(tail, sep, i - start);
                assert(tail.skip(i - start + 1) =~= s@.skip(i + 1));
                assert(tail.take(i - start) =~= s@.subrange(start as int, i as int));
                assert(done + (seq![tail.take(i - start)] + split(s@.skip(i + 1), sep)) =~= done.push(
                    tail.take(i - start),
                ) + split(s@.skip(i + 1), sep));
                done = done.push(tail.take(i - start));
            }
            ranges.push((start, i));
            start = i + 1;
        }
        i += 1;
    }
    proof {
        let tail = s@.skip(start as int);
        assert forall|j: int| 0 <= j < tail.len() implies tail[j] != sep by {
            assert(tail[j] == s@[start + j]);
        }
        lemma_find_is(tail, sep, tail.len() as int);
        assert(tail =~= s@.subrange(start as int, s.len() as int));
        assert(done + seq![tail] =~= done.push(tail));
    }
    ranges.push((start, s.len()));
    ranges
}

/// The characters of a string, for indexing.
pub fn to_chars(s: &str) -> (out: Vec<char>)
    ensures
        out@ == s@,
{
    let mut out: Vec<char> = Vec::new();
    for c in it: s.chars()
        invariant
            out@ == it.seq().take(it.index() as int),
            it.seq() == s@,
    {
        out.push(c);
    }
    out
}

/// The characters of `s` from `from` up to `to`, as a string of its own.
pub fn piece(s: &str, from: usize, to: usize) -> (out: String)
    requires
        from <= to <= s@.len(),
    ensures
        out@ == s@.subrange(from as int, to as int),
{
    String::from_str(s.substring_char(from, to))
}

/// Whether two ranges of characters read the same.
pub fn same_range(a: &Vec<char>, a_from: usize, a_to: usize, b: &Vec<char>, b_from: usize, b_to: usize) -> (r:
    bool)
    requires
        a_from <= a_to <= a@.len(),
        b_from <= b_to <= b@.len(),
    ensures
        r == (a@.subrange(a_from as int, a_to as int) == b@.subrange(b_from as int, b_to as int)),
{
    let ghost x = a@.subrange(a_from as int, a_to as int);
    let ghost y = b@.subrange(b_from as int, b_to as int);
    if a_to - a_from != b_to - b_from {
        assert(x.len() != y.len());
        return false;
    }
    let n = a_to - a_from;
    let mut i: usize = 0;
    while i < n
        invariant
            i <= n,
            n == x.len() == y.len(),
            a_from + n == a_to <= a@.len(),
            b_from + n == b_to <= b@.len(),
            x == a@.subrange(a_from as int, a_to as int),
            y == b@.subrange(b_from as int, b_to as int),
            forall|j: int| 0 <= j < i ==> x[j] == y[j],
        decreases n - i,
    {
        if a[a_from + i] != b[b_from + i] {
            assert(x[i as int] != y[i as int]);
            return false;
        }
        i += 1;
    }
    assert(x =~= y);
    true
}

/// Whether two strings read the same.
pub fn same_text(a: &str, b: &str) -> (r: bool)
    ensures
        r == (a@ == b@),
{
    let x = to_chars(a);
    let y = to_chars(b);
    proof {
        assert(x@.subrange(0, x@.len() as int) =~= x@);
        assert(y@.subrange(0, y@.len() as int) =~= y@);
    }
    same_range(&x, 0, x.len(), &y, 0, y.len())
}

} // verus!
