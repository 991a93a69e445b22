//! The size of a unified diff.

use vstd::prelude::*;
use crate::text::{chars_of, starts_with};

verus! {

/// The length of the first line of `s`, without its newline.
pub open spec fn line_len(s: Seq<char>) -> nat
    decreases s.len(),
{
    if s.len() == 0 || s[0] == '\n' {
        0
    } else {
        1 + line_len(s.drop_first())
    }
}

/// `line` without a carriage return at its end.
pub open spec fn without_return(line: Seq<char>) -> Seq<char> {
    if line.len() > 0 && line.last() == '\r' {
        line.drop_last()
    } else {
        line
    }
}

/// The lines of `s`, in order. A line ends with a newline, or with a carriage
/// return and a newline, neither of which belongs to it; the last line need
/// not end with one.
pub open spec fn lines(s: Seq<char>) -> Seq<Seq<char>>
    decreases s.len(),
{
    if s.len() == 0 {
        seq![]
    } else {
        proof {
            lemma_line_len(s);
        }
        let n = line_len(s) as int;
        if n == s.len() {
            seq![s]
        } else {
            seq![without_return(s.take(n))] + lines(s.skip(n + 1))
        }
    }
}

/// A line of a diff that says that a line was added or removed, and is no
/// header.
pub open spec fn is_change(line: Seq<char>) -> bool {
    &&& starts_with(line, "+"@) || starts_with(line, "-"@)
    &&& !starts_with(line, "+++"@)
    &&& !starts_with(line, "---"@)
    &&& !starts_with(line, "@@"@)
}

/// The number of `lines` that say that a line was added or removed.
pub open spec fn changes(lines: Seq<Seq<char>>) -> nat
    decreases lines.len(),
{
    if lines.len() == 0 {
        0
    } else {
        changes(lines.drop_first()) + if is_change(lines.first()) {
            1nat
        } else {
            0
        }
    }
}

/// The number of lines that a diff adds and removes.
pub open spec fn diff_size(diff: Seq<char>) -> nat {
    changes(lines(diff))
}

pub proof fn lemma_line_len(s: Seq<char>)
    ensures
        line_len(s) <= s.len(),
        forall|i: int| 0 <= i < line_len(s) ==> #[trigger] s[i] != '\n',
        line_len(s) < s.len() ==> s[line_len(s) as int] == '\n',
    decreases s.len(),
{
    if s.len() > 0 && s[0] != '\n' {
        let t = s.drop_first();
        lemma_line_len(t);
        assert forall|i: int| 0 <= i < line_len(s) implies #[trigger] s[i] != '\n' by {
            if i > 0 {
                assert(s[i] == t[i - 1]);
            }
        }
        if line_len(s) < s.len() {
            assert(s[line_len(s) as int] == t[line_len(t) as int]);
        }
    }
}

pub proof fn lemma_line_len_is(s: Seq<char>, n: int)
    requires
        0 <= n <= s.len(),
        forall|i: int| 0 <= i < n ==> #[trigger] s[i] != '\n',
        n < s.len() ==> s[n] == '\n',
    ensures
        line_len(s) == n,
{
    lemma_line_len(s);
    if line_len(s) < n {
        assert(s[line_len(s) as int] != '\n');
    }
}

/// Whether a line of a diff says that a line was added or removed.
fn is_change_line(line: &[char]) -> (r: bool)
    ensures
        r == is_change(line@),
{
    proof {
        lemma_is_change(line@);
    }
    line.len() > 0 && (line[0] == '+' || line[0] == '-') && !(line.len() >= 3 && line[1]
        == line[0] && line[2] == line[0])
}

/// A change begins with one sign, but not with three of the same.
pub proof fn lemma_is_change(line: Seq<char>)
    ensures
        is_change(line) <==> line.len() > 0 && (line[0] == '+' || line[0] == '-') && !(line.len()
            >= 3 && line[1] == line[0] && line[2] == line[0]),
{
    reveal_strlit("+");
    reveal_strlit("-");
    reveal_strlit("+++");
    reveal_strlit("---");
    reveal_strlit("@@");
    if line.len() >= 1 {
        let p = line.subrange(0, 1);
        assert(p[0] == line[0]);
        assert(line[0] == '+' ==> p == "+"@);
        assert(line[0] == '-' ==> p == "-"@);
    }
    if line.len() >= 2 {
        assert(line.subrange(0, 2)[0] == line[0]);
    }
    if line.len() >= 3 {
        let p = line.subrange(0, 3);
        assert(p[0] == line[0] && p[1] == line[1] && p[2] == line[2]);
        assert(line[0] == '+' && line[1] == '+' && line[2] == '+' ==> p == "+++"@);
        assert(line[0] == '-' && line[1] == '-' && line[2] == '-' ==> p == "---"@);
    }
}

/// Counts the lines that a unified diff adds and removes: those that begin with
/// `+` or `-`, but for the headers that begin with `+++` or `---`.
pub fn count_diff_lines(diff: &str) -> (r: usize)
    ensures
        r == diff_size(diff@),
{
    let chars = chars_of(diff);
    let s = chars.as_slice();
    let mut count: usize = 0;
    let mut from: usize = 0;
    assert(s@.skip(0) == s@);
    while from < s.len()
        invariant
            s@ == diff@,
            count <= from <= s.len(),
            count + diff_size(s@.skip(from as int)) == diff_size(diff@),
        decreases s.len() - from,
    {
        let ghost rest = s@.skip(from as int);
        let mut end: usize = from;
        while end < s.len() && s[end] != '\n'
            invariant
                from <= end <= s.len(),
                forall|i: int| from <= i < end ==> #[trigger] s@[i] != '\n',
            decreases s.len() - end,
        {
            end += 1;
        }
        proof {
            lemma_line_len_is(rest, end - from);
            assert(rest.take(end - from) == s@.subrange(from as int, end as int));
        }
        let last: usize = if end < s.len() && from < end && s[end - 1] == '\r' {
            end - 1
        } else {
            end
        };
        let line = vstd::slice::slice_subrange(s, from, last);
        assert(line@ == lines(rest).first());
        if is_change_line(line) {
            count += 1;
        }
        if end < s.len() {
            assert(rest.skip(end - from + 1) == s@.skip(end + 1));
            assert(lines(rest).drop_first() == lines(s@.skip(end + 1)));
            from = end + 1;
        } else {
            assert(lines(rest).drop_first() == lines(s@.skip(end as int)));
            from = end;
        }
    }
    count
}

} // verus!
