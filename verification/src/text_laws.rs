//! What holds of search, words, trimming, letter case and numbers.

use vstd::prelude::*;
use crate::number::{all_digits, decimal, digits_value, parsed};
use crate::text::{
    contains, ends_with, first_at, lemma_word_len, lemma_word_len_is, occurs_at, starts_with, trim,
    trim_end, trim_start, word_len, words, Kept,
};
use crate::unicode::{
    all_ascii, ascii_digit, lowercase, unicode_alphanumeric, unicode_lowercase, unicode_numeric,
    white_space,
};

verus! {

/// A text stands at a position of another exactly if their characters agree
/// from there on, one by one.
pub proof fn law_occurrence_is_character_by_character(s: Seq<char>, needle: Seq<char>, i: int)
    ensures
        occurs_at(s, needle, i) <==> {
            &&& 0 <= i
            &&& i + needle.len() <= s.len()
            &&& forall|k: int| 0 <= k < needle.len() ==> s[i + k] == #[trigger] needle[k]
        },
{
    if 0 <= i && i + needle.len() <= s.len() {
        let part = s.subrange(i, i + needle.len());
        assert forall|k: int| 0 <= k < needle.len() implies part[k] == s[i + k] by {}
        if occurs_at(s, needle, i) {
            assert forall|k: int| 0 <= k < needle.len() implies s[i + k] == #[trigger] needle[k] by {
                assert(part[k] == s[i + k]);
            }
        }
        if forall|k: int| 0 <= k < needle.len() ==> s[i + k] == #[trigger] needle[k] {
            assert(part =~= needle);
        }
    }
}

/// A text holds another exactly if it is made of something, the other, and
/// something more.
pub proof fn law_containing_is_concatenation(s: Seq<char>, needle: Seq<char>)
    ensures
        contains(s, needle) <==> exists|a: Seq<char>, b: Seq<char>| s == #[trigger] (a + needle + b),
{
    if contains(s, needle) {
        let i = choose|i: int| occurs_at(s, needle, i);
        let a = s.take(i);
        let b = s.skip(i + needle.len());
        assert(s =~= a + needle + b) by {
            assert(s =~= a + s.subrange(i, i + needle.len()) + b);
        }
    }
    if exists|a: Seq<char>, b: Seq<char>| s == #[trigger] (a + needle + b) {
        let (a, b) = choose|a: Seq<char>, b: Seq<char>| s == #[trigger] (a + needle + b);
        let i = a.len() as int;
        assert(s.subrange(i, i + needle.len()) =~= needle);
        assert(occurs_at(s, needle, a.len() as int));
    }
}

/// A text begins with another exactly if it is the other and something more,
/// and ends with another exactly if it is something and the other.
pub proof fn law_ends_are_concatenation(s: Seq<char>, end: Seq<char>)
    ensures
        starts_with(s, end) <==> exists|b: Seq<char>| s == #[trigger] (end + b),
        ends_with(s, end) <==> exists|a: Seq<char>| s == #[trigger] (a + end),
{
    if starts_with(s, end) {
        assert(s =~= s.subrange(0, end.len() as int) + s.skip(end.len() as int));
        assert(s =~= end + s.skip(end.len() as int));
    }
    if exists|b: Seq<char>| s == #[trigger] (end + b) {
        assert(s.subrange(0, end.len() as int) =~= end);
    }
    let k = s.len() - end.len();
    if ends_with(s, end) {
        assert(s =~= s.take(k) + s.subrange(k, s.len() as int));
        assert(s =~= s.take(k) + end);
    }
    if exists|a: Seq<char>| s == #[trigger] (a + end) {
        assert(s.subrange(k, k + end.len()) =~= end);
    }
}

/// The first place of a text in another: it stands there, and what comes before
/// its last character there does not hold it.
pub proof fn law_first_place(s: Seq<char>, needle: Seq<char>, i: int)
    requires
        needle.len() > 0,
    ensures
        first_at(s, needle, i) <==> occurs_at(s, needle, i) && !contains(
            s.take(i + needle.len() - 1),
            needle,
        ),
{
    if occurs_at(s, needle, i) {
        let t = s.take(i + needle.len() - 1);
        assert forall|j: int| 0 <= j < i implies occurs_at(s, needle, j) == occurs_at(
            t,
            needle,
            j,
        ) by {
            assert(t.subrange(j, j + needle.len()) =~= s.subrange(j, j + needle.len()));
        }
        if first_at(s, needle, i) && contains(t, needle) {
            let j = choose|j: int| occurs_at(t, needle, j);
            assert(occurs_at(s, needle, j));
        }
    }
}

/// A text of nothing has no words.
pub proof fn law_no_text_no_words()
    ensures
        words(Seq::<char>::empty()) == Seq::<Seq<char>>::empty(),
{
}

/// A text without white space is one word.
pub proof fn law_text_without_white_space_is_a_word(w: Seq<char>)
    requires
        w.len() > 0,
        forall|i: int| 0 <= i < w.len() ==> !white_space(#[trigger] w[i]),
    ensures
        words(w) == seq![w],
{
    lemma_word_len_is(w, w.len() as int);
    assert(w.take(w.len() as int) =~= w);
    assert(w.skip(w.len() as int) =~= Seq::<char>::empty());
    law_no_text_no_words();
    assert(words(w) == seq![w.take(w.len() as int)] + words(w.skip(w.len() as int)));
    assert(words(w) =~= seq![w]);
}

/// White space separates words: on both sides of it they are what they are
/// alone.
pub proof fn law_white_space_separates_words(a: Seq<char>, c: char, b: Seq<char>)
    requires
        white_space(c),
    ensures
        words(a + seq![c] + b) == words(a) + words(b),
    decreases a.len(),
{
    let s = a + seq![c] + b;
    if a.len() == 0 {
        assert(s[0] == c);
        assert(s.drop_first() =~= b);
        assert(words(a) + words(b) =~= words(b));
    } else if white_space(a[0]) {
        assert(s[0] == a[0]);
        assert(s.drop_first() =~= a.drop_first() + seq![c] + b);
        law_white_space_separates_words(a.drop_first(), c, b);
    } else {
        lemma_word_len(a);
        let n = word_len(a) as int;
        assert forall|i: int| 0 <= i < n implies !white_space(#[trigger] s[i]) by {
            assert(s[i] == a[i]);
        }
        assert(white_space(s[n]));
        lemma_word_len_is(s, n);
        assert(s[0] == a[0]);
        assert(s.take(n) =~= a.take(n));
        assert(s.skip(n) =~= a.skip(n) + seq![c] + b);
        law_white_space_separates_words(a.skip(n), c, b);
        assert(words(s) =~= words(a) + words(b));
    }
}

proof fn lemma_words_before(a: Seq<char>, b: Seq<char>)
    requires
        b.len() == 0 || white_space(b.first()),
    ensures
        words(a + b) == words(a) + words(b),
{
    if b.len() == 0 {
        assert(a + b =~= a);
        assert(words(a) + words(b) =~= words(a));
    } else {
        let rest = b.drop_first();
        assert(a + b =~= a + seq![b.first()] + rest);
        law_white_space_separates_words(a, b.first(), rest);
        assert(words(b) == words(rest));
    }
}

/// A run of characters without white space, with white space or an end of the
/// text on each side, is a word of the text.
pub proof fn law_word_between_white_space(a: Seq<char>, w: Seq<char>, b: Seq<char>)
    requires
        w.len() > 0,
        forall|i: int| 0 <= i < w.len() ==> !white_space(#[trigger] w[i]),
        a.len() == 0 || white_space(a.last()),
        b.len() == 0 || white_space(b.first()),
    ensures
        words(a + w + b) == words(a) + seq![w] + words(b),
{
    law_text_without_white_space_is_a_word(w);
    lemma_words_before(a + w, b);
    if a.len() == 0 {
        assert(a + w =~= w);
        assert(words(a) + seq![w] =~= seq![w]);
    } else {
        let front = a.drop_last();
        assert(a + w =~= front + seq![a.last()] + w);
        law_white_space_separates_words(front, a.last(), w);
        law_white_space_separates_words(front, a.last(), Seq::empty());
        assert(a =~= front + seq![a.last()] + Seq::<char>::empty());
        assert(words(front) + words(Seq::<char>::empty()) =~= words(front));
    }
}

/// The ASCII characters that separate words: tab, line feed, line tabulation,
/// form feed, carriage return and space.
pub proof fn law_ascii_white_space(c: char)
    requires
        (c as u32) < 0x80,
    ensures
        white_space(c) <==> {
            ||| c == '\t'
            ||| c == '\n'
            ||| c == '\u{b}'
            ||| c == '\u{c}'
            ||| c == '\r'
            ||| c == ' '
        },
{
}

/// Where trimming stops: at a letter, a number, a dot or a slash for paths, at a
/// number for numbers.
pub proof fn law_where_trimming_stops(c: char)
    ensures
        (c as u32) < 0x80 ==> (Kept::Path.holds(c) <==> {
            ||| 0x41 <= c as u32 <= 0x5a
            ||| 0x61 <= c as u32 <= 0x7a
            ||| 0x2e <= c as u32 <= 0x39
        }),
        (c as u32) < 0x80 ==> (Kept::Number.holds(c) <==> 0x30 <= c as u32 <= 0x39),
        (c as u32) >= 0x80 ==> (Kept::Path.holds(c) <==> unicode_alphanumeric(c)),
        (c as u32) >= 0x80 ==> (Kept::Number.holds(c) <==> unicode_numeric(c)),
{
}

proof fn lemma_trim_start(a: Seq<char>, t: Seq<char>, kept: Kept)
    requires
        forall|i: int| 0 <= i < a.len() ==> !kept.holds(#[trigger] a[i]),
    ensures
        trim_start(a + t, kept) == trim_start(t, kept),
    decreases a.len(),
{
    if a.len() == 0 {
        assert(a + t =~= t);
    } else {
        let rest = a.drop_first();
        assert forall|i: int| 0 <= i < rest.len() implies !kept.holds(#[trigger] rest[i]) by {
            assert(rest[i] == a[i + 1]);
        }
        lemma_trim_start(rest, t, kept);
        assert((a + t).first() == a[0]);
        assert((a + t).drop_first() =~= rest + t);
    }
}

proof fn lemma_trim_end(t: Seq<char>, b: Seq<char>, kept: Kept)
    requires
        forall|i: int| 0 <= i < b.len() ==> !kept.holds(#[trigger] b[i]),
    ensures
        trim_end(t + b, kept) == trim_end(t, kept),
    decreases b.len(),
{
    if b.len() == 0 {
        assert(t + b =~= t);
    } else {
        let rest = b.drop_last();
        assert forall|i: int| 0 <= i < rest.len() implies !kept.holds(#[trigger] rest[i]) by {
            assert(rest[i] == b[i]);
        }
        lemma_trim_end(t, rest, kept);
        assert((t + b).last() == b[b.len() - 1]);
        assert((t + b).drop_last() =~= t + rest);
    }
}

/// Trimming takes off exactly the characters at both ends that are not kept,
/// however many there are: what is left is empty, or begins and ends with a kept
/// character.
pub proof fn law_trimming_takes_off_both_ends(
    a: Seq<char>,
    m: Seq<char>,
    b: Seq<char>,
    kept: Kept,
)
    requires
        forall|i: int| 0 <= i < a.len() ==> !kept.holds(#[trigger] a[i]),
        forall|i: int| 0 <= i < b.len() ==> !kept.holds(#[trigger] b[i]),
        m.len() == 0 || kept.holds(m.first()) && kept.holds(m.last()),
    ensures
        trim(a + m + b, kept) == m,
{
    assert(a + m + b =~= a + (m + b));
    lemma_trim_start(a, m + b, kept);
    if m.len() == 0 {
        assert(m + b =~= b + m);
        lemma_trim_start(b, m, kept);
        assert(m =~= Seq::<char>::empty());
    } else {
        assert((m + b).first() == m.first());
        lemma_trim_end(m, b, kept);
    }
}

/// The lower case of an ASCII text: `A` to `Z` become `a` to `z`, and nothing
/// else changes. Any other text has the lower case that Unicode gives it.
pub proof fn law_lower_case(s: Seq<char>)
    ensures
        (forall|i: int| 0 <= i < s.len() ==> (#[trigger] s[i] as u32) < 0x80) ==> {
            &&& lowercase(s).len() == s.len()
            &&& forall|i: int|
                0 <= i < s.len() ==> #[trigger] lowercase(s)[i] as int == s[i] as int + if 0x41
                    <= s[i] as u32 <= 0x5a {
                    0x20int
                } else {
                    0
                }
        },
        !(forall|i: int| 0 <= i < s.len() ==> (#[trigger] s[i] as u32) < 0x80) ==> lowercase(s)
            == unicode_lowercase(s),
{
    assert(all_ascii(s) == (forall|i: int| 0 <= i < s.len() ==> (#[trigger] s[i] as u32) < 0x80));
}

/// A digit at the end of a row of digits: the number before it counts ten
/// times.
pub proof fn law_digits_are_positional(s: Seq<char>, c: char)
    requires
        '0' <= c <= '9',
    ensures
        digits_value(Seq::<char>::empty()) == 0,
        digits_value(s.push(c)) == 10 * digits_value(s) + (c as int - 0x30),
{
    assert(s.push(c).drop_last() =~= s);
}

/// A number in decimal is a row of digits that stands for it, and has no leading
/// zero unless it is the one digit of 0.
pub proof fn law_decimal_stands_for_its_number(n: nat)
    ensures
        decimal(n).len() > 0,
        forall|i: int| 0 <= i < decimal(n).len() ==> '0' <= #[trigger] decimal(n)[i] <= '9',
        decimal(n)[0] == '0' ==> n == 0 && decimal(n).len() == 1,
        digits_value(decimal(n)) == n,
    decreases n,
{
    if n < 10 {
        let s = decimal(n);
        assert(s =~= Seq::<char>::empty().push(s[0]));
        law_digits_are_positional(Seq::empty(), s[0]);
    } else {
        law_decimal_stands_for_its_number(n / 10);
        let s = decimal(n / 10);
        let c = decimal(n).last();
        assert(decimal(n) == s.push(c));
        law_digits_are_positional(s, c);
        assert(decimal(n)[0] == s[0]);
    }
}

/// A number in decimal reads back as itself, with a plus sign before it or
/// without.
pub proof fn law_decimal_reads_back(n: usize)
    ensures
        parsed(decimal(n as nat)) == Some(n),
        parsed(seq!['+'] + decimal(n as nat)) == Some(n),
{
    let s = decimal(n as nat);
    law_decimal_stands_for_its_number(n as nat);
    assert forall|i: int| 0 <= i < s.len() implies ascii_digit(#[trigger] s[i]) by {}
    assert(s[0] != '+');
    let plus = seq!['+'] + s;
    assert(plus[0] == '+');
    assert(plus.drop_first() =~= s);
}

/// A text that holds anything but digits after at most one leading plus sign, or
/// no digits, writes no number.
pub proof fn law_only_digits_write_a_number(s: Seq<char>, i: int)
    requires
        s.len() == 0 || s == seq!['+'] || (0 <= i < s.len() && !('0' <= s[i] <= '9') && (i
            > 0 || s[i] != '+')),
    ensures
        parsed(s) is None,
{
    if s.len() > 0 && s != seq!['+'] {
        if s[0] == '+' {
            assert(s.drop_first()[i - 1] == s[i]);
            assert(!ascii_digit(s.drop_first()[i - 1]));
        } else {
            assert(!ascii_digit(s[i]));
        }
    } else if s == seq!['+'] {
        assert(s[0] == '+');
        assert(s.drop_first().len() == 0);
    }
}

/// A row of digits writes the number that it stands for, unless that is too
/// large for a `usize`; a plus sign before it makes no difference.
pub proof fn law_digits_write_their_number(s: Seq<char>)
    requires
        s.len() > 0,
        forall|i: int| 0 <= i < s.len() ==> '0' <= #[trigger] s[i] <= '9',
    ensures
        parsed(s) is Some <==> digits_value(s) <= usize::MAX,
        parsed(s) is Some ==> parsed(s)->0 == digits_value(s),
        parsed(seq!['+'] + s) == parsed(s),
{
    assert forall|i: int| 0 <= i < s.len() implies ascii_digit(#[trigger] s[i]) by {}
    assert(all_digits(s));
    assert(s[0] != '+');
    let plus = seq!['+'] + s;
    assert(plus[0] == '+');
    assert(plus.drop_first() =~= s);
}

} // verus!
