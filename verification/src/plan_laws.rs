//! What holds of the files and lines that a plan is read for.

use vstd::prelude::*;
use crate::laws::law_plan_files_are_the_words_that_name_one;
use crate::number::{decimal, digits_value, parsed};
use crate::plan::{
    after_first, files_named, names_file, number_or_zero, plan_files, plan_line, word_line,
};
use crate::scope_anomaly::{plan_fits, plan_scope};
use crate::text::{contains, first_at, lemma_word_len, occurs_at, word_len, words, Kept};
use crate::text_laws::{
    law_decimal_stands_for_its_number, law_digits_write_their_number,
    law_first_place, law_only_digits_write_a_number, law_trimming_takes_off_both_ends,
    law_word_between_white_space,
};
use crate::unicode::{lowercase, white_space};

verus! {

/// `w` ends with the characters of `end`, one by one.
pub open spec fn last_characters(w: Seq<char>, end: Seq<char>) -> bool {
    w.len() >= end.len() && forall|k: int|
        0 <= k < end.len() ==> w[w.len() - end.len() + k] == #[trigger] end[k]
}

proof fn lemma_last_characters(w: Seq<char>, end: Seq<char>)
    ensures
        last_characters(w, end) <==> crate::text::ends_with(w, end),
{
    crate::text_laws::law_occurrence_is_character_by_character(w, end, w.len() - end.len());
}

/// The words that name a file, of whatever length: those whose last characters
/// are a known extension, and those with a slash among their characters.
pub proof fn law_file_names_by_their_characters(w: Seq<char>)
    ensures
        names_file(w) <==> {
            ||| last_characters(w, seq!['.', 'r', 's'])
            ||| last_characters(w, seq!['.', 't', 's'])
            ||| last_characters(w, seq!['.', 'j', 's'])
            ||| last_characters(w, seq!['.', 'p', 'y'])
            ||| last_characters(w, seq!['.', 'g', 'o'])
            ||| last_characters(w, seq!['.', 'j', 'a', 'v', 'a'])
            ||| last_characters(w, seq!['.', 'c'])
            ||| last_characters(w, seq!['.', 'c', 'p', 'p'])
            ||| last_characters(w, seq!['.', 'h'])
            ||| last_characters(w, seq!['.', 't', 's', 'x'])
            ||| last_characters(w, seq!['.', 'j', 's', 'x'])
            ||| last_characters(w, seq!['.', 't', 'o', 'm', 'l'])
            ||| exists|i: int| 0 <= i < w.len() && #[trigger] w[i] == '/'
        },
{
    reveal_strlit(".rs");
    reveal_strlit(".ts");
    reveal_strlit(".js");
    reveal_strlit(".py");
    reveal_strlit(".go");
    reveal_strlit(".java");
    reveal_strlit(".c");
    reveal_strlit(".cpp");
    reveal_strlit(".h");
    reveal_strlit(".tsx");
    reveal_strlit(".jsx");
    reveal_strlit(".toml");
    reveal_strlit("/");
    assert(".rs"@ =~= seq!['.', 'r', 's']);
    assert(".ts"@ =~= seq!['.', 't', 's']);
    assert(".js"@ =~= seq!['.', 'j', 's']);
    assert(".py"@ =~= seq!['.', 'p', 'y']);
    assert(".go"@ =~= seq!['.', 'g', 'o']);
    assert(".java"@ =~= seq!['.', 'j', 'a', 'v', 'a']);
    assert(".c"@ =~= seq!['.', 'c']);
    assert(".cpp"@ =~= seq!['.', 'c', 'p', 'p']);
    assert(".h"@ =~= seq!['.', 'h']);
    assert(".tsx"@ =~= seq!['.', 't', 's', 'x']);
    assert(".jsx"@ =~= seq!['.', 'j', 's', 'x']);
    assert(".toml"@ =~= seq!['.', 't', 'o', 'm', 'l']);
    lemma_last_characters(w, ".rs"@);
    lemma_last_characters(w, ".ts"@);
    lemma_last_characters(w, ".js"@);
    lemma_last_characters(w, ".py"@);
    lemma_last_characters(w, ".go"@);
    lemma_last_characters(w, ".java"@);
    lemma_last_characters(w, ".c"@);
    lemma_last_characters(w, ".cpp"@);
    lemma_last_characters(w, ".h"@);
    lemma_last_characters(w, ".tsx"@);
    lemma_last_characters(w, ".jsx"@);
    lemma_last_characters(w, ".toml"@);
    if contains(w, "/"@) {
        let i = choose|i: int| occurs_at(w, "/"@, i);
        assert(w.subrange(i, i + 1)[0] == w[i]);
    }
    if exists|i: int| 0 <= i < w.len() && #[trigger] w[i] == '/' {
        let i = choose|i: int| 0 <= i < w.len() && #[trigger] w[i] == '/';
        assert(w.subrange(i, i + 1) =~= "/"@);
        assert(occurs_at(w, "/"@, i));
    }
}

/// Whatever stands before an extension or around a slash, the word names a
/// file.
pub proof fn law_any_stem_makes_a_file_name(a: Seq<char>, b: Seq<char>)
    ensures
        names_file(a + ".rs"@),
        names_file(a + ".ts"@),
        names_file(a + ".js"@),
        names_file(a + ".py"@),
        names_file(a + ".go"@),
        names_file(a + ".java"@),
        names_file(a + ".c"@),
        names_file(a + ".cpp"@),
        names_file(a + ".h"@),
        names_file(a + ".tsx"@),
        names_file(a + ".jsx"@),
        names_file(a + ".toml"@),
        names_file(a + "/"@ + b),
{
    crate::text_laws::law_ends_are_concatenation(a + ".rs"@, ".rs"@);
    crate::text_laws::law_ends_are_concatenation(a + ".ts"@, ".ts"@);
    crate::text_laws::law_ends_are_concatenation(a + ".js"@, ".js"@);
    crate::text_laws::law_ends_are_concatenation(a + ".py"@, ".py"@);
    crate::text_laws::law_ends_are_concatenation(a + ".go"@, ".go"@);
    crate::text_laws::law_ends_are_concatenation(a + ".java"@, ".java"@);
    crate::text_laws::law_ends_are_concatenation(a + ".c"@, ".c"@);
    crate::text_laws::law_ends_are_concatenation(a + ".cpp"@, ".cpp"@);
    crate::text_laws::law_ends_are_concatenation(a + ".h"@, ".h"@);
    crate::text_laws::law_ends_are_concatenation(a + ".tsx"@, ".tsx"@);
    crate::text_laws::law_ends_are_concatenation(a + ".jsx"@, ".jsx"@);
    crate::text_laws::law_ends_are_concatenation(a + ".toml"@, ".toml"@);
    crate::text_laws::law_containing_is_concatenation(a + "/"@ + b, "/"@);
}

/// A file name in a plan is counted, whatever the plan says around it: it
/// stands between white space or at an end of the plan, with punctuation around
/// it or without.
pub proof fn law_named_file_is_counted(
    before: Seq<char>,
    open: Seq<char>,
    file: Seq<char>,
    close: Seq<char>,
    after: Seq<char>,
)
    requires
        before.len() == 0 || white_space(before.last()),
        after.len() == 0 || white_space(after.first()),
        forall|i: int| 0 <= i < open.len() ==> !Kept::Path.holds(#[trigger] open[i]),
        forall|i: int| 0 <= i < close.len() ==> !Kept::Path.holds(#[trigger] close[i]),
        forall|i: int|
            0 <= i < (open + file + close).len() ==> !white_space(
                #[trigger] (open + file + close)[i],
            ),
        file.len() > 0,
        Kept::Path.holds(file.first()),
        Kept::Path.holds(file.last()),
        last_characters(file, seq!['.', 'r', 's']) || last_characters(file, seq!['.', 't', 's'])
            || last_characters(file, seq!['.', 'j', 's']) || last_characters(
            file,
            seq!['.', 'p', 'y'],
        ) || last_characters(file, seq!['.', 'g', 'o']) || last_characters(
            file,
            seq!['.', 'j', 'a', 'v', 'a'],
        ) || last_characters(file, seq!['.', 'c']) || last_characters(file, seq!['.', 'c', 'p', 'p'])
            || last_characters(file, seq!['.', 'h']) || last_characters(
            file,
            seq!['.', 't', 's', 'x'],
        ) || last_characters(file, seq!['.', 'j', 's', 'x']) || last_characters(
            file,
            seq!['.', 't', 'o', 'm', 'l'],
        ) || exists|i: int| 0 <= i < file.len() && #[trigger] file[i] == '/',
    ensures
        plan_files(before + (open + file + close) + after).contains(file),
        plan_files(before + (open + file + close) + after).len() > 0,
{
    let w = open + file + close;
    let plan = before + w + after;
    law_file_names_by_their_characters(file);
    law_trimming_takes_off_both_ends(open, file, close, Kept::Path);
    law_word_between_white_space(before, w, after);
    let k = words(before).len() as int;
    assert(words(plan)[k] == w);
    law_plan_files_are_the_words_that_name_one(plan, file);
    lemma_files_named_len(words(plan));
    if plan_files(plan).len() == 0 {
        assert(plan_files(plan) =~= Set::<Seq<char>>::empty());
    }
}

proof fn lemma_files_named_len(list: Seq<Seq<char>>)
    ensures
        files_named(list).finite(),
        files_named(list).len() <= list.len(),
    decreases list.len(),
{
    if list.len() > 0 {
        lemma_files_named_len(list.drop_first());
    }
}

proof fn lemma_words_len(s: Seq<char>)
    ensures
        words(s).len() <= s.len(),
    decreases s.len(),
{
    if s.len() > 0 {
        if white_space(s[0]) {
            lemma_words_len(s.drop_first());
        } else {
            lemma_word_len(s);
            lemma_words_len(s.skip(word_len(s) as int));
        }
    }
}

/// A plan names no more files than it has words or characters, so that every
/// plan of up to a fiftieth of `usize::MAX` characters has an estimate, and so
/// has every plan that refers to a line.
pub proof fn law_plans_have_estimates(plan: Seq<char>)
    ensures
        plan_files(plan).len() <= words(plan).len() <= plan.len(),
        50 * plan.len() <= usize::MAX ==> plan_fits(plan),
        plan_line(lowercase(plan)) > 0 ==> plan_fits(plan),
        plan_fits(plan) && plan_line(lowercase(plan)) == 0 ==> 50 * plan_files(plan).len()
            <= usize::MAX,
{
    lemma_files_named_len(words(plan));
    lemma_words_len(plan);
}

/// The estimate that a plan gives: as many files as it names, the line that it
/// refers to or else fifty lines for each file, and no limit where it names and
/// refers to nothing.
pub proof fn law_plan_estimate(files: usize, line: usize)
    requires
        line > 0 || 50 * files <= usize::MAX,
    ensures
        files > 0 ==> plan_scope(files as nat, line as nat).expected_file_count == Some(files),
        files == 0 ==> plan_scope(files as nat, line as nat).expected_file_count is None,
        line > 0 ==> plan_scope(files as nat, line as nat).expected_line_count == Some(line),
        line == 0 && files > 0 ==> plan_scope(files as nat, line as nat).expected_line_count is Some
            && plan_scope(files as nat, line as nat).expected_line_count->0 == 50 * files,
        line == 0 && files == 0 ==> plan_scope(
            files as nat,
            line as nat,
        ).expected_line_count is None,
{
}

/// What follows the first occurrence of a text is found, whatever it is, and
/// nothing where the text does not occur.
pub proof fn law_what_follows_is_found(a: Seq<char>, needle: Seq<char>, b: Seq<char>)
    requires
        needle.len() > 0,
    ensures
        !contains(a + needle.drop_last(), needle) ==> after_first(a + needle + b, needle) == Some(b),
        !contains(a, needle) ==> after_first(a, needle) is None,
{
    if !contains(a + needle.drop_last(), needle) {
        let s = a + needle + b;
        let i = a.len() as int;
        assert(s.subrange(i, i + needle.len()) =~= needle);
        assert(s.take(i + needle.len() - 1) =~= a + needle.drop_last());
        law_first_place(s, needle, i);
        let j = choose|j: int| first_at(s, needle, j);
        assert(first_at(s, needle, i));
        assert(i == j);
        assert(s.skip(i + needle.len()) =~= b);
        assert(occurs_at(s, needle, i));
    }
}

/// `s` writes a number that fits: digits, after at most one plus sign, that
/// stand for `n`.
pub open spec fn writes(s: Seq<char>, n: usize) -> bool {
    exists|d: Seq<char>|
        #![trigger digits_value(d)]
        (s == d || s == seq!['+'] + d) && d.len() > 0 && digits_value(d) == n && forall|i: int|
            0 <= i < d.len() ==> '0' <= #[trigger] d[i] <= '9'
}

proof fn lemma_writes(s: Seq<char>, n: usize)
    requires
        writes(s, n),
    ensures
        number_or_zero(s) == n,
        parsed(s) == Some(n),
{
    let d = choose|d: Seq<char>|
        #![trigger digits_value(d)]
        (s == d || s == seq!['+'] + d) && d.len() > 0 && digits_value(d) == n && forall|i: int|
            0 <= i < d.len() ==> '0' <= #[trigger] d[i] <= '9';
    law_digits_write_their_number(d);
}

proof fn lemma_parsed_writes(s: Seq<char>)
    requires
        parsed(s) is Some,
    ensures
        writes(s, parsed(s)->0),
{
    let d = if s.len() > 0 && s[0] == '+' {
        s.drop_first()
    } else {
        s
    };
    assert(s =~= d || s =~= seq!['+'] + d);
    assert forall|i: int| 0 <= i < d.len() implies '0' <= #[trigger] d[i] <= '9' by {
        assert(crate::unicode::ascii_digit(d[i]));
    }
    assert(digits_value(d) == parsed(s)->0);
}

/// The line that a word refers to, in whatever punctuation: the number that
/// stands between its first and its last numeral, or the number after the first
/// dash between them; and none where neither writes a number that fits.
pub proof fn law_line_in_a_word(a: Seq<char>, m: Seq<char>, b: Seq<char>, n: usize)
    requires
        forall|i: int| 0 <= i < a.len() ==> !Kept::Number.holds(#[trigger] a[i]),
        forall|i: int| 0 <= i < b.len() ==> !Kept::Number.holds(#[trigger] b[i]),
        m.len() == 0 || Kept::Number.holds(m.first()) && Kept::Number.holds(m.last()),
    ensures
        writes(m, n) ==> word_line(a + m + b) == n,
        forall|h: Seq<char>, t: Seq<char>|
            m == #[trigger] (h + seq!['-'] + t) && !h.contains('-') && writes(t, n) ==> word_line(
                a + m + b,
            ) == n,
        word_line(a + m + b) > 0 ==> writes(m, word_line(a + m + b)) || exists|
            h: Seq<char>,
            t: Seq<char>,
        |
            m == #[trigger] (h + seq!['-'] + t) && !h.contains('-') && writes(
                t,
                word_line(a + m + b),
            ),
{
    let r = word_line(a + m + b);
    law_trimming_takes_off_both_ends(a, m, b, Kept::Number);
    reveal_strlit("-");
    assert("-"@ =~= seq!['-']);
    if m.contains('-') {
        let p = m.index_of_first('-')->0;
        m.index_of_first_ensures('-');
        let h0 = m.take(p);
        let t0 = m.skip(p + 1);
        assert(m =~= h0 + seq!['-'] + t0);
        assert(!h0.contains('-')) by {
            if h0.contains('-') {
                let q = choose|q: int| 0 <= q < h0.len() && h0[q] == '-';
                assert(m[q] == '-');
            }
        }
        lemma_first_dash(h0, t0);
        assert(m[p] == '-');
        if p > 0 {
            law_only_digits_write_a_number(m, p);
        } else {
            law_only_digits_write_a_number(m, 0);
        }
        assert(parsed(m) is None);
        if writes(m, n) {
            lemma_writes(m, n);
        }
        assert(r == number_or_zero(t0));
        assert forall|h: Seq<char>, t: Seq<char>|
            m == #[trigger] (h + seq!['-'] + t) && !h.contains('-') && writes(t, n) implies r == n by {
            lemma_first_dash(h, t);
            lemma_writes(t, n);
        }
        if r > 0 {
            lemma_parsed_writes(t0);
            assert(m == h0 + seq!['-'] + t0);
        }
    } else {
        assert(after_first(m, "-"@) is None) by {
            if contains(m, "-"@) {
                let i = choose|i: int| occurs_at(m, "-"@, i);
                assert(m.subrange(i, i + 1)[0] == m[i]);
                assert(m[i] == '-');
            }
        }
        if writes(m, n) {
            lemma_writes(m, n);
        }
        assert forall|h: Seq<char>, t: Seq<char>|
            m == #[trigger] (h + seq!['-'] + t) && !h.contains('-') && writes(t, n) implies r == n by {
            assert(m[h.len() as int] == '-');
        }
        if r > 0 {
            lemma_parsed_writes(m);
        }
    }
}

proof fn lemma_first_dash(h: Seq<char>, t: Seq<char>)
    requires
        !h.contains('-'),
    ensures
        after_first(h + seq!['-'] + t, "-"@) == Some(t),
{
    reveal_strlit("-");
    assert("-"@ =~= seq!['-']);
    assert(h + "-"@.drop_last() =~= h);
    if contains(h, "-"@) {
        let i = choose|i: int| occurs_at(h, "-"@, i);
        assert(h.subrange(i, i + 1)[0] == h[i]);
        assert(h[i] == '-');
    }
    law_what_follows_is_found(h, "-"@, t);
    assert(h + "-"@ + t == h + seq!['-'] + t);
}

/// A plan in lower case refers to a line in the two words after its first
/// "line", whatever stands before that: to the larger of what the two refer to.
/// Without "line" it refers to none.
pub proof fn law_line_stands_after_the_first_line(a: Seq<char>, rest: Seq<char>)
    ensures
        !contains(a, "line"@) ==> plan_line(a) == 0,
        !contains(a + "lin"@, "line"@) ==> {
            let r = plan_line(a + "line"@ + rest);
            let following = words(rest);
            &&& following.len() > 0 ==> r >= word_line(following[0])
            &&& following.len() > 1 ==> r >= word_line(following[1])
            &&& {
                ||| r == 0
                ||| following.len() > 0 && r == word_line(following[0])
                ||| following.len() > 1 && r == word_line(following[1])
            }
        },
{
    reveal_strlit("line");
    reveal_strlit("lin");
    assert("line"@.drop_last() =~= "lin"@);
    law_what_follows_is_found(a, "line"@, rest);
}

proof fn lemma_decimal_kept(n: nat)
    ensures
        forall|i: int|
            0 <= i < decimal(n).len() ==> Kept::Number.holds(#[trigger] decimal(n)[i])
                && !white_space(decimal(n)[i]) && decimal(n)[i] != '-',
        !decimal(n).contains('-'),
        decimal(n).len() > 0,
{
    law_decimal_stands_for_its_number(n);
    assert forall|i: int| 0 <= i < decimal(n).len() implies Kept::Number.holds(
        #[trigger] decimal(n)[i],
    ) && !white_space(decimal(n)[i]) && decimal(n)[i] != '-' by {
        assert('0' <= decimal(n)[i] <= '9');
    }
}

proof fn lemma_decimal_writes(n: usize)
    ensures
        writes(decimal(n as nat), n),
{
    law_decimal_stands_for_its_number(n as nat);
    assert(digits_value(decimal(n as nat)) == n);
}

/// A number in a word, and a range of two, refer to that number and to the end
/// of the range, in whatever punctuation.
pub proof fn law_number_and_range_in_a_word(a: Seq<char>, m: usize, n: usize, b: Seq<char>)
    requires
        forall|i: int| 0 <= i < a.len() ==> !Kept::Number.holds(#[trigger] a[i]),
        forall|i: int| 0 <= i < b.len() ==> !Kept::Number.holds(#[trigger] b[i]),
    ensures
        word_line(a + decimal(n as nat) + b) == n,
        word_line(a + (decimal(m as nat) + seq!['-'] + decimal(n as nat)) + b) == n,
        word_line(a + b) == 0,
{
    lemma_decimal_kept(m as nat);
    lemma_decimal_kept(n as nat);
    lemma_decimal_writes(n);
    law_line_in_a_word(a, decimal(n as nat), b, n);
    let range = decimal(m as nat) + seq!['-'] + decimal(n as nat);
    assert(range.first() == decimal(m as nat)[0]);
    assert(range.last() == decimal(n as nat).last());
    law_line_in_a_word(a, range, b, n);
    let none = Seq::<char>::empty();
    assert(a + none + b =~= a + b);
    law_line_in_a_word(a, none, b, n);
    if word_line(a + b) > 0 {
        let r = word_line(a + b);
        if writes(none, r) {
            lemma_writes(none, r);
            law_only_digits_write_a_number(none, 0);
        } else {
            let (h, t) = choose|h: Seq<char>, t: Seq<char>|
                none == #[trigger] (h + seq!['-'] + t) && !h.contains('-') && writes(t, r);
            assert((h + seq!['-'] + t).len() > 0);
        }
    }
}

/// A plan that says "line N", or "lines N" and the like, refers to line N:
/// `glued` is what "line" runs on with, if anything.
pub proof fn law_plan_refers_to_its_line(
    a: Seq<char>,
    glued: Seq<char>,
    gap: char,
    word: Seq<char>,
    rest: Seq<char>,
)
    requires
        !contains(a + "lin"@, "line"@),
        forall|i: int|
            0 <= i < glued.len() ==> !white_space(#[trigger] glued[i]) && !Kept::Number.holds(
                glued[i],
            ),
        white_space(gap),
        word.len() > 0,
        forall|i: int| 0 <= i < word.len() ==> !white_space(#[trigger] word[i]),
        rest.len() == 0 || white_space(rest.first()),
    ensures
        plan_line(a + "line"@ + (glued + seq![gap] + word + rest)) >= word_line(word),
        glued.len() > 0 ==> plan_line(a + "line"@ + (glued + seq![gap] + word + rest)) == word_line(
            word,
        ),
        words(rest).len() == 0 ==> plan_line(a + "line"@ + (glued + seq![gap] + word + rest))
            == word_line(word),
{
    let after = glued + seq![gap] + word + rest;
    law_line_stands_after_the_first_line(a, after);
    law_word_between_white_space(glued + seq![gap], word, rest);
    crate::text_laws::law_white_space_separates_words(glued, gap, Seq::empty());
    crate::text_laws::law_no_text_no_words();
    assert(glued + seq![gap] + Seq::<char>::empty() =~= glued + seq![gap]);
    assert(words(glued) + Seq::<Seq<char>>::empty() =~= words(glued));
    assert(words(after) == words(glued) + seq![word] + words(rest));
    if glued.len() > 0 {
        crate::text_laws::law_text_without_white_space_is_a_word(glued);
        let none = Seq::<char>::empty();
        law_number_and_range_in_a_word(glued, 0, 0, none);
        assert(glued + none =~= glued);
        assert(words(after)[0] == glued);
        assert(words(after)[1] == word);
    } else {
        assert(glued =~= Seq::<char>::empty());
        assert(words(after)[0] == word);
    }
}

} // verus!
