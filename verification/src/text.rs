//! Texts as sequences of characters: search, words, trimming.

use vstd::prelude::*;
use crate::unicode::{alphanumeric, numeric, white_space};

verus! {

/// `needle` stands in `s` at position `i`.
pub open spec fn occurs_at(s: Seq<char>, needle: Seq<char>, i: int) -> bool {
    0 <= i && i + needle.len() <= s.len() && s.subrange(i, i + needle.len()) == needle
}

/// `needle` stands somewhere in `s`.
pub open spec fn contains(s: Seq<char>, needle: Seq<char>) -> bool {
    exists|i: int| occurs_at(s, needle, i)
}

/// `needle` stands in `s` at position `i`, and nowhere before it.
pub open spec fn first_at(s: Seq<char>, needle: Seq<char>, i: int) -> bool {
    occurs_at(s, needle, i) && forall|j: int| 0 <= j < i ==> !occurs_at(s, needle, j)
}

/// `s` begins with `prefix`.
pub open spec fn starts_with(s: Seq<char>, prefix: Seq<char>) -> bool {
    occurs_at(s, prefix, 0)
}

/// `s` ends with `suffix`.
pub open spec fn ends_with(s: Seq<char>, suffix: Seq<char>) -> bool {
    occurs_at(s, suffix, s.len() - suffix.len())
}

/// The length of the run of characters other than white space with which `s`
/// begins.
pub open spec fn word_len(s: Seq<char>) -> nat
    decreases s.len(),
{
    if s.len() == 0 || white_space(s[0]) {
        0
    } else {
        1 + word_len(s.drop_first())
    }
}

/// The words of `s`, in order: its longest runs without white space.
pub open spec fn words(s: Seq<char>) -> Seq<Seq<char>>
    decreases s.len(),
{
    if s.len() == 0 {
        seq![]
    } else if white_space(s[0]) {
        words(s.drop_first())
    } else {
        proof {
            lemma_word_len(s);
        }
        seq![s.take(word_len(s) as int)] + words(s.skip(word_len(s) as int))
    }
}

pub proof fn lemma_word_len(s: Seq<char>)
    ensures
        word_len(s) <= s.len(),
        forall|i: int| 0 <= i < word_len(s) ==> !white_space(#[trigger] s[i]),
        word_len(s) < s.len() ==> white_space(s[word_len(s) as int]),
    decreases s.len(),
{
    if s.len() > 0 && !white_space(s[0]) {
        let t = s.drop_first();
        lemma_word_len(t);
        assert forall|i: int| 0 <= i < word_len(s) implies !white_space(#[trigger] s[i]) by {
            if i > 0 {
                assert(s[i] == t[i - 1]);
            }
        }
        if word_len(s) < s.len() {
            assert(s[word_len(s) as int] == t[word_len(t) as int]);
        }
    }
}

pub proof fn lemma_word_len_is(s: Seq<char>, n: int)
    requires
        0 <= n <= s.len(),
        forall|i: int| 0 <= i < n ==> !white_space(#[trigger] s[i]),
        n < s.len() ==> white_space(s[n]),
    ensures
        word_len(s) == n,
{
    lemma_word_len(s);
    if word_len(s) < n {
        assert(!white_space(s[word_len(s) as int]));
    }
}

/// Which characters trimming leaves at the ends of a word.
#[derive(Clone, Copy)]
pub enum Kept {
    /// Letters, numbers, `.` and `/`: what a file path begins and ends with.
    Path,
    /// Numbers.
    Number,
}

impl Kept {
    /// Trimming stops at `c`.
    pub open spec fn holds(self, c: char) -> bool {
        match self {
            Kept::Path => alphanumeric(c) || c == '.' || c == '/',
            Kept::Number => numeric(c),
        }
    }

    /// Whether trimming stops at `c`.
    pub fn keeps(self, c: char) -> (r: bool)
        ensures
            r == self.holds(c),
    {
        match self {
            Kept::Path => c.is_alphanumeric() || c == '.' || c == '/',
            Kept::Number => c.is_numeric(),
        }
    }
}

/// `s` without the characters at its start that `kept` does not hold.
pub open spec fn trim_start(s: Seq<char>, kept: Kept) -> Seq<char>
    decreases s.len(),
{
    if s.len() == 0 || kept.holds(s.first()) {
        s
    } else {
        trim_start(s.drop_first(), kept)
    }
}

/// `s` without the characters at its end that `kept` does not hold.
pub open spec fn trim_end(s: Seq<char>, kept: Kept) -> Seq<char>
    decreases s.len(),
{
    if s.len() == 0 || kept.holds(s.last()) {
        s
    } else {
        trim_end(s.drop_last(), kept)
    }
}

/// `s` without the characters at both ends that `kept` does not hold.
pub open spec fn trim(s: Seq<char>, kept: Kept) -> Seq<char> {
    trim_end(trim_start(s, kept), kept)
}

/// The characters of a text, as a vector.
pub fn chars_of(s: &str) -> (v: Vec<char>)
    ensures
        v@ == s@,
{
    let mut v: Vec<char> = Vec::new();
    for c in it: s.chars()
        invariant
            it.seq() == s@,
            v@ == s@.take(it.index()),
    {
        v.push(c);
    }
    v
}

/// The text made of the characters of `s` from `from` up to `to`.
pub fn string_of(s: &[char], from: usize, to: usize) -> (r: String)
    requires
        from <= to <= s.len(),
    ensures
        r@ == s@.subrange(from as int, to as int),
{
    let mut r = String::new();
    let mut i: usize = from;
    while i < to
        invariant
            from <= i <= to <= s.len(),
            r@ == s@.subrange(from as int, i as int),
        decreases to - i,
    {
        r.push(s[i]);
        i += 1;
    }
    r
}

/// Whether `needle` stands in `s` at position `i`.
pub fn matches_at(s: &[char], needle: &[char], i: usize) -> (r: bool)
    ensures
        r == occurs_at(s@, needle@, i as int),
{
    if i > s.len() || needle.len() > s.len() - i {
        return false;
    }
    let mut k: usize = 0;
    while k < needle.len()
        invariant
            k <= needle.len(),
            i + needle.len() <= s.len(),
            s@.subrange(i as int, i + k) == needle@.take(k as int),
        decreases needle.len() - k,
    {
        if s[i + k] != needle[k] {
            assert(s@.subrange(i as int, i + needle.len())[k as int] != needle@[k as int]);
            return false;
        }
        k += 1;
    }
    assert(needle@.take(k as int) == needle@);
    true
}

/// Whether two texts are the same.
pub fn same_text(a: &str, b: &str) -> (r: bool)
    ensures
        r == (a@ == b@),
{
    let x = chars_of(a);
    let y = chars_of(b);
    assert(x@.len() == y@.len() ==> x@.subrange(0, y@.len() as int) == x@);
    x.len() == y.len() && matches_at(x.as_slice(), y.as_slice(), 0)
}

/// The first position of `needle` in `s`.
pub fn find(s: &[char], needle: &[char]) -> (r: Option<usize>)
    ensures
        match r {
            Some(i) => first_at(s@, needle@, i as int),
            None => !contains(s@, needle@),
        },
{
    if needle.len() > s.len() {
        return None;
    }
    let last: usize = s.len() - needle.len();
    let mut i: usize = 0;
    while i < last
        invariant
            i <= last == s.len() - needle.len(),
            forall|j: int| 0 <= j < i ==> !occurs_at(s@, needle@, j),
        decreases last - i,
    {
        if matches_at(s, needle, i) {
            return Some(i);
        }
        i += 1;
    }
    if matches_at(s, needle, last) {
        Some(last)
    } else {
        None
    }
}

/// Whether `needle` stands somewhere in `s`.
pub fn has_text(s: &[char], needle: &str) -> (r: bool)
    ensures
        r == contains(s@, needle@),
{
    find(s, chars_of(needle).as_slice()).is_some()
}

/// Whether `s` ends with `suffix`.
pub fn has_suffix(s: &[char], suffix: &str) -> (r: bool)
    ensures
        r == ends_with(s@, suffix@),
{
    let suffix_chars = chars_of(suffix);
    suffix_chars.len() <= s.len() && matches_at(s, suffix_chars.as_slice(), s.len() - suffix_chars.len())
}

/// The bounds of the first word of `s` at or after `from`.
pub fn next_word(s: &[char], from: usize) -> (r: Option<(usize, usize)>)
    requires
        from <= s.len(),
    ensures
        match r {
            Some((start, end)) => {
                &&& from <= start < end <= s.len()
                &&& words(s@.skip(from as int)) == seq![s@.subrange(start as int, end as int)]
                    + words(s@.skip(end as int))
            },
            None => words(s@.skip(from as int)) == Seq::<Seq<char>>::empty(),
        },
{
    let mut start: usize = from;
    while start < s.len() && s[start].is_whitespace()
        invariant
            from <= start <= s.len(),
            words(s@.skip(from as int)) == words(s@.skip(start as int)),
        decreases s.len() - start,
    {
        assert(s@.skip(start as int).drop_first() == s@.skip(start + 1));
        start += 1;
    }
    if start == s.len() {
        return None;
    }
    let mut end: usize = start + 1;
    while end < s.len() && !s[end].is_whitespace()
        invariant
            start < end <= s.len(),
            forall|i: int| start <= i < end ==> !white_space(#[trigger] s@[i]),
        decreases s.len() - end,
    {
        end += 1;
    }
    proof {
        let t = s@.skip(start as int);
        lemma_word_len_is(t, end - start);
        assert(t.take(end - start) == s@.subrange(start as int, end as int));
        assert(t.skip(end - start) == s@.skip(end as int));
    }
    Some((start, end))
}

/// The bounds within `s` of what trimming leaves of its characters from `from`
/// up to `to`.
pub fn trim_bounds(s: &[char], from: usize, to: usize, kept: Kept) -> (r: (usize, usize))
    requires
        from <= to <= s.len(),
    ensures
        from <= r.0 <= r.1 <= to,
        s@.subrange(r.0 as int, r.1 as int) == trim(s@.subrange(from as int, to as int), kept),
{
    let mut start: usize = from;
    while start < to && !kept.keeps(s[start])
        invariant
            from <= start <= to <= s.len(),
            trim_start(s@.subrange(from as int, to as int), kept) == trim_start(
                s@.subrange(start as int, to as int),
                kept,
            ),
        decreases to - start,
    {
        assert(s@.subrange(start as int, to as int).drop_first() == s@.subrange(
            start + 1,
            to as int,
        ));
        start += 1;
    }
    let mut end: usize = to;
    while start < end && !kept.keeps(s[end - 1])
        invariant
            start <= end <= to <= s.len(),
            trim_end(s@.subrange(start as int, to as int), kept) == trim_end(
                s@.subrange(start as int, end as int),
                kept,
            ),
        decreases end - start,
    {
        assert(s@.subrange(start as int, end as int).drop_last() == s@.subrange(
            start as int,
            end - 1,
        ));
        end -= 1;
    }
    (start, end)
}

} // verus!
