//! What the text of an agent's plan says about the files and lines that it
//! will edit.

use vstd::prelude::*;
use vstd::hash_set::StringHashSet;
use crate::number::{parse, parsed};
use crate::text::{
    chars_of, contains, ends_with, find, first_at, next_word, string_of,
    has_text, has_suffix, trim, trim_bounds, words, Kept,
};

verus! {

/// A word, trimmed, that names a file: it ends in a common file extension or
/// holds a path separator.
pub open spec fn names_file(word: Seq<char>) -> bool {
    ||| ends_with(word, ".rs"@)
    ||| ends_with(word, ".ts"@)
    ||| ends_with(word, ".js"@)
    ||| ends_with(word, ".py"@)
    ||| ends_with(word, ".go"@)
    ||| ends_with(word, ".java"@)
    ||| ends_with(word, ".c"@)
    ||| ends_with(word, ".cpp"@)
    ||| ends_with(word, ".h"@)
    ||| ends_with(word, ".tsx"@)
    ||| ends_with(word, ".jsx"@)
    ||| ends_with(word, ".toml"@)
    ||| contains(word, "/"@)
}

/// The files that some words name, each without the punctuation around it.
pub open spec fn files_named(words: Seq<Seq<char>>) -> Set<Seq<char>>
    decreases words.len(),
{
    if words.len() == 0 {
        Set::empty()
    } else {
        let word = trim(words.first(), Kept::Path);
        let rest = files_named(words.drop_first());
        if names_file(word) {
            rest.insert(word)
        } else {
            rest
        }
    }
}

/// The files that a plan names.
pub open spec fn plan_files(plan: Seq<char>) -> Set<Seq<char>> {
    files_named(words(plan))
}

/// What follows the first `needle` in `s`.
pub open spec fn after_first(s: Seq<char>, needle: Seq<char>) -> Option<Seq<char>> {
    if contains(s, needle) {
        let i = choose|i: int| first_at(s, needle, i);
        Some(s.skip(i + needle.len()))
    } else {
        None
    }
}

/// The number that `s` writes, or 0 where it writes none.
pub open spec fn number_or_zero(s: Seq<char>) -> usize {
    match parsed(s) {
        Some(n) => n,
        None => 0,
    }
}

/// The larger of two numbers.
pub open spec fn larger(a: usize, b: usize) -> usize {
    if a >= b {
        a
    } else {
        b
    }
}

/// The line that a word refers to: the number that it writes or, for a range
/// such as `10-15`, the number after the first dash; 0 where it writes none.
pub open spec fn word_line(word: Seq<char>) -> usize {
    let number = trim(word, Kept::Number);
    larger(
        number_or_zero(number),
        match after_first(number, "-"@) {
            Some(end) => number_or_zero(end),
            None => 0,
        },
    )
}

/// The line that a plan in lower case refers to: the largest in the two words
/// after the first "line"; 0 where there is none.
pub open spec fn plan_line(plan: Seq<char>) -> usize {
    match after_first(plan, "line"@) {
        Some(rest) => {
            let following = words(rest);
            larger(
                if following.len() > 0 {
                    word_line(following[0])
                } else {
                    0
                },
                if following.len() > 1 {
                    word_line(following[1])
                } else {
                    0
                },
            )
        },
        None => 0,
    }
}

proof fn lemma_after_first(s: Seq<char>, needle: Seq<char>, i: int)
    requires
        first_at(s, needle, i),
    ensures
        after_first(s, needle) == Some(s.skip(i + needle.len())),
{
    let j = choose|j: int| first_at(s, needle, j);
    assert(first_at(s, needle, j));
    assert(i == j);
}

/// Whether a word, trimmed, names a file.
fn is_file_name(s: &[char]) -> (r: bool)
    ensures
        r == names_file(s@),
{
    has_suffix(s, ".rs") || has_suffix(s, ".ts") || has_suffix(s, ".js")
        || has_suffix(s, ".py") || has_suffix(s, ".go") || has_suffix(s, ".java")
        || has_suffix(s, ".c") || has_suffix(s, ".cpp") || has_suffix(s, ".h")
        || has_suffix(s, ".tsx") || has_suffix(s, ".jsx") || has_suffix(s, ".toml")
        || has_text(s, "/")
}

/// The number of distinct files that a plan names.
pub fn count_plan_files(plan: &str) -> (r: usize)
    ensures
        r == plan_files(plan@).len(),
{
    let chars = chars_of(plan);
    let s = chars.as_slice();
    let mut files = StringHashSet::new();
    let mut from: usize = 0;
    assert(s@.skip(0) == s@);
    assert(files@.union(plan_files(plan@)) == plan_files(plan@));
    loop
        invariant
            s@ == plan@,
            from <= s.len(),
            files@.union(files_named(words(s@.skip(from as int)))) == plan_files(plan@),
        ensures
            files@ == plan_files(plan@),
        decreases s.len() - from,
    {
        let ghost rest = words(s@.skip(from as int));
        match next_word(s, from) {
            None => {
                assert(files@.union(files_named(rest)) == files@);
                break;
            },
            Some((start, end)) => {
                let (a, b) = trim_bounds(s, start, end, Kept::Path);
                let word = vstd::slice::slice_subrange(s, a, b);
                assert(rest.drop_first() == words(s@.skip(end as int)));
                let ghost before = files@;
                if is_file_name(word) {
                    files.insert(string_of(s, a, b));
                }
                assert(files@.union(files_named(rest.drop_first())) == before.union(
                    files_named(rest),
                ));
                from = end;
            },
        }
    }
    files.len()
}

/// The number that the characters of `s` from `from` up to `to` write, or 0.
fn parse_or_zero(s: &[char], from: usize, to: usize) -> (r: usize)
    requires
        from <= to <= s.len(),
    ensures
        r == number_or_zero(s@.subrange(from as int, to as int)),
{
    match parse(s, from, to) {
        Some(n) => n,
        None => 0,
    }
}

/// The larger of two numbers.
fn max(a: usize, b: usize) -> (r: usize)
    ensures
        r == larger(a, b),
{
    if a >= b {
        a
    } else {
        b
    }
}

/// The line to which the characters of `s` from `from` up to `to` refer.
fn find_word_line(s: &[char], from: usize, to: usize) -> (r: usize)
    requires
        from <= to <= s.len(),
    ensures
        r == word_line(s@.subrange(from as int, to as int)),
{
    let (a, b) = trim_bounds(s, from, to, Kept::Number);
    let number = vstd::slice::slice_subrange(s, a, b);
    let whole: usize = parse_or_zero(number, 0, number.len());
    assert(number@.subrange(0, number@.len() as int) == number@);
    let dash = chars_of("-");
    let end: usize = match find(number, dash.as_slice()) {
        Some(i) => {
            proof {
                lemma_after_first(number@, "-"@, i as int);
            }
            assert(number@.subrange(i + dash@.len(), number@.len() as int) == number@.skip(
                i + dash@.len(),
            ));
            parse_or_zero(number, i + dash.len(), number.len())
        },
        None => 0,
    };
    max(whole, end)
}

/// The line that a plan in lower case refers to, or 0.
pub fn find_plan_line(plan: &str) -> (r: usize)
    ensures
        r == plan_line(plan@),
{
    let chars = chars_of(plan);
    let s = chars.as_slice();
    let keyword = chars_of("line");
    match find(s, keyword.as_slice()) {
        Some(i) => {
            proof {
                lemma_after_first(s@, "line"@, i as int);
            }
            assert(i + keyword@.len() <= s.len());
            match next_word(s, i + keyword.len()) {
                Some((start, end)) => {
                    let first: usize = find_word_line(s, start, end);
                    match next_word(s, end) {
                        Some((start2, end2)) => max(first, find_word_line(s, start2, end2)),
                        None => first,
                    }
                },
                None => 0,
            }
        },
        None => 0,
    }
}

} // verus!
