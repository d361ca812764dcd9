//! Character sequences: searching and trimming, stated over `Seq<char>`.
//!
//! Every position in this module counts characters, not bytes.

use vstd::prelude::*;

verus! {

/// Position of the first `c` in `s`; the length of `s` where it holds none.
pub open spec fn first_index(s: Seq<char>, c: char) -> int
    decreases s.len(),
{
    if s.len() == 0 || s[0] == c {
        0
    } else {
        1 + first_index(s.drop_first(), c)
    }
}

/// The part of `s` that precedes its first `c`; all of `s` where it holds none.
pub open spec fn before_first(s: Seq<char>, c: char) -> Seq<char> {
    s.take(first_index(s, c))
}

/// True when `pat` stands in `s` at position `i`.
pub open spec fn occurs_at(s: Seq<char>, pat: Seq<char>, i: int) -> bool {
    0 <= i && i + pat.len() <= s.len() && s.subrange(i, i + pat.len()) == pat
}

/// True when `pat` stands somewhere in `s`.
pub open spec fn contains_pattern(s: Seq<char>, pat: Seq<char>) -> bool {
    exists|i: int| occurs_at(s, pat, i)
}

/// The least position at or after `from` where `pat` stands in `s`.
pub open spec fn first_occurrence_from(s: Seq<char>, pat: Seq<char>, from: int) -> Option<int>
    decreases s.len() + 1 - from,
{
    if from < 0 || from + pat.len() > s.len() {
        None
    } else if occurs_at(s, pat, from) {
        Some(from)
    } else {
        first_occurrence_from(s, pat, from + 1)
    }
}

/// The least position where `pat` stands in `s`.
pub open spec fn first_occurrence(s: Seq<char>, pat: Seq<char>) -> Option<int> {
    first_occurrence_from(s, pat, 0)
}

/// The lines of `text`: the pieces between its line feeds. A text that ends
/// with a line feed has an empty last line.
pub open spec fn split_lines(text: Seq<char>) -> Seq<Seq<char>>
    decreases text.len(),
{
    let i = first_index(text, '\n');
    if i < 0 || i >= text.len() {
        seq![text]
    } else {
        seq![text.take(i)] + split_lines(text.skip(i + 1))
    }
}

/// True when no character of `s` is `c`.
pub open spec fn free_of(s: Seq<char>, c: char) -> bool {
    forall|i: int| 0 <= i < s.len() ==> s[i] != c
}

/// `first_index` is in range, nothing before it equals `c`, and it points at a
/// `c` unless it is the length.
pub proof fn lemma_first_index(s: Seq<char>, c: char)
    ensures
        0 <= first_index(s, c) <= s.len(),
        forall|j: int| 0 <= j < first_index(s, c) ==> s[j] != c,
        first_index(s, c) < s.len() ==> s[first_index(s, c)] == c,
    decreases s.len(),
{
    if !(s.len() == 0 || s[0] == c) {
        let rest = s.drop_first();
        lemma_first_index(rest, c);
        assert forall|j: int| 0 <= j < first_index(s, c) implies s[j] != c by {
            if j > 0 {
                assert(s[j] == rest[j - 1]);
            }
        }
    }
}

/// A position with the three properties of `lemma_first_index` is `first_index`.
pub proof fn lemma_first_index_unique(s: Seq<char>, c: char, i: int)
    requires
        0 <= i <= s.len(),
        forall|j: int| 0 <= j < i ==> s[j] != c,
        i < s.len() ==> s[i] == c,
    ensures
        i == first_index(s, c),
{
    lemma_first_index(s, c);
}

/// The first `c` of a concatenation is the first `c` of its left part, or
/// else that of its right part.
pub proof fn lemma_first_index_add(a: Seq<char>, b: Seq<char>, c: char)
    ensures
        first_index(a + b, c) == if first_index(a, c) < a.len() {
            first_index(a, c)
        } else {
            a.len() + first_index(b, c)
        },
{
    lemma_first_index(a, c);
    lemma_first_index(b, c);
    let i = if first_index(a, c) < a.len() {
        first_index(a, c)
    } else {
        a.len() + first_index(b, c)
    };
    lemma_first_index_unique(a + b, c, i);
}

/// A sequence is free of `c` exactly when `first_index` finds none.
pub proof fn lemma_free_of(s: Seq<char>, c: char)
    ensures
        free_of(s, c) <==> first_index(s, c) == s.len(),
{
    lemma_first_index(s, c);
}

/// The lines of two texts put together with a line feed between them are
/// the lines of the first followed by the lines of the second.
pub proof fn lemma_split_lines_add(a: Seq<char>, b: Seq<char>)
    ensures
        split_lines(a + seq!['\n'] + b) == split_lines(a) + split_lines(b),
    decreases a.len(),
{
    let tail = seq!['\n'] + b;
    let text = a + seq!['\n'] + b;
    assert(text =~= a + tail);
    lemma_first_index(a, '\n');
    lemma_first_index_add(a, tail, '\n');
    let i = first_index(a, '\n');
    if i < a.len() {
        let rest = a.skip(i + 1);
        lemma_split_lines_add(rest, b);
        assert(text.take(i) =~= a.take(i));
        assert(text.skip(i + 1) =~= rest + seq!['\n'] + b);
    } else {
        assert(text.take(i) =~= a);
        assert(text.skip(i + 1) =~= b);
    }
}

/// What `first_occurrence_from` returns is the least occurrence from `from` on,
/// and it returns none exactly when there is no such occurrence.
pub proof fn lemma_first_occurrence_from(s: Seq<char>, pat: Seq<char>, from: int)
    requires
        0 <= from,
    ensures
        match first_occurrence_from(s, pat, from) {
            Some(p) => from <= p && occurs_at(s, pat, p) && forall|q: int|
                from <= q < p ==> !occurs_at(s, pat, q),
            None => forall|q: int| from <= q ==> !occurs_at(s, pat, q),
        },
    decreases s.len() + 1 - from,
{
    if from + pat.len() <= s.len() && !occurs_at(s, pat, from) {
        lemma_first_occurrence_from(s, pat, from + 1);
    }
}

/// `first_occurrence` finds the least occurrence, and finds one exactly when
/// the pattern is contained.
pub proof fn lemma_first_occurrence(s: Seq<char>, pat: Seq<char>)
    ensures
        first_occurrence(s, pat) is Some <==> contains_pattern(s, pat),
        first_occurrence(s, pat) matches Some(p) ==> occurs_at(s, pat, p) && forall|q: int|
            0 <= q < p ==> !occurs_at(s, pat, q),
{
    lemma_first_occurrence_from(s, pat, 0);
}

/// A least occurrence is what `first_occurrence` returns.
pub proof fn lemma_first_occurrence_unique(s: Seq<char>, pat: Seq<char>, p: int)
    requires
        occurs_at(s, pat, p),
        forall|q: int| 0 <= q < p ==> !occurs_at(s, pat, q),
    ensures
        first_occurrence(s, pat) == Some(p),
{
    lemma_first_occurrence_from(s, pat, 0);
}

/// The characters of a string, one vector element per character.
pub fn to_chars(s: &str) -> (chars: Vec<char>)
    ensures
        chars@ == s@,
{
    let mut chars: Vec<char> = Vec::new();
    let iter = s.chars();
    for c in it: iter
        invariant
            it.seq() == s@,
            chars@ == it.seq().take(it.index()),
    {
        chars.push(c);
    }
    chars
}

/// A copy of the characters of `v` from `from` up to, not including, `to`.
pub fn slice(v: &Vec<char>, from: usize, to: usize) -> (part: Vec<char>)
    requires
        from <= to <= v.len(),
    ensures
        part@ == v@.subrange(from as int, to as int),
{
    let mut part: Vec<char> = Vec::new();
    let mut i: usize = from;
    while i < to
        invariant
            from <= i <= to <= v.len(),
            part@ == v@.subrange(from as int, i as int),
        decreases to - i,
    {
        part.push(v[i]);
        i += 1;
    }
    part
}

/// Finds the first `c` in `v` at or after position `from`.
pub fn find_char(v: &Vec<char>, from: usize, c: char) -> (i: usize)
    requires
        from <= v.len(),
    ensures
        from <= i <= v.len(),
        i - from == first_index(v@.skip(from as int), c),
{
    let mut i: usize = from;
    while i < v.len() && v[i] != c
        invariant
            from <= i <= v.len(),
            forall|j: int| from <= j < i ==> v@[j] != c,
        decreases v.len() - i,
    {
        i += 1;
    }
    proof {
        lemma_first_index_unique(v@.skip(from as int), c, i - from);
    }
    i
}

/// Tells whether `pat` stands in `v` at position `i`.
pub fn matches_at(v: &Vec<char>, pat: &Vec<char>, i: usize) -> (found: bool)
    ensures
        found == occurs_at(v@, pat@, i as int),
{
    if pat.len() > v.len() || i > v.len() - pat.len() {
        return false;
    }
    let mut k: usize = 0;
    while k < pat.len()
        invariant
            k <= pat.len(),
            i + pat.len() <= v.len(),
            forall|j: int| 0 <= j < k ==> v@[i + j] == pat@[j],
        decreases pat.len() - k,
    {
        if v[i + k] != pat[k] {
            return false;
        }
        k += 1;
    }
    assert(v@.subrange(i as int, i + pat.len()) =~= pat@);
    true
}

/// Finds the first place where `pat` stands in `v`.
pub fn find_pattern(v: &Vec<char>, pat: &Vec<char>) -> (found: Option<usize>)
    ensures
        match found {
            Some(p) => first_occurrence(v@, pat@) == Some(p as int),
            None => first_occurrence(v@, pat@) is None,
        },
{
    if pat.len() > v.len() {
        return None;
    }
    let last: usize = v.len() - pat.len();
    let mut i: usize = 0;
    while i < last
        invariant
            i <= last,
            last + pat.len() == v.len(),
            forall|q: int| 0 <= q < i ==> !occurs_at(v@, pat@, q),
        decreases last - i,
    {
        if matches_at(v, pat, i) {
            proof {
                lemma_first_occurrence_unique(v@, pat@, i as int);
            }
            return Some(i);
        }
        i += 1;
    }
    if matches_at(v, pat, last) {
        proof {
            lemma_first_occurrence_unique(v@, pat@, last as int);
        }
        return Some(last);
    }
    proof {
        lemma_first_occurrence(v@, pat@);
    }
    None
}

} // verus!
