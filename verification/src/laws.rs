//! What holds of the guards as a whole, beyond what each function promises.

use vstd::prelude::*;
use crate::ast_validation::{validation, AstValidationResult, BufferSnapshot};
use crate::diff::{
    changes, diff_size, is_change, lemma_is_change, lemma_line_len, lemma_line_len_is, line_len,
    lines, without_return,
};
use crate::number::decimal;
use crate::plan::{files_named, names_file, plan_files};
use crate::ratio::{
    is_nearest_quotient, law_ratio_is_nearest, law_ratio_reaches_five, law_ratio_reaches_three,
    law_rounding_keeps_order, law_small_counts_are_exact, rounded, Ratio,
};
use crate::scope_anomaly::{
    medium_feature, overrun, plan_scope, prompt_scope, small_fix, trivial_task, verdict,
    ActualEditScope, ExpectedEditScope, LINES_PER_FILE,
};
use crate::text::{contains, occurs_at, starts_with, trim, words, Kept};
use crate::text_laws::law_containing_is_concatenation;
use crate::tool_results::{
    files_touched, lines_changed, record, records_of, string_members, EditRecord,
};
use crate::unicode::{all_ascii, ascii_lower, lowercase};

verus! {

/// An edit is rejected exactly if it adds syntax errors: a buffer that had
/// errors before the edit and has no more of them after it passes.
pub proof fn law_old_errors_are_not_blamed(before: BufferSnapshot, after: BufferSnapshot)
    ensures
        validation(before.syntax_error_count, after).introduces_errors()
            <==> after.syntax_error_count > before.syntax_error_count,
{
}

/// The description of a validation begins with "edit introduced" exactly if
/// there are new errors.
pub proof fn law_description_tells_new_errors(result: AstValidationResult)
    ensures
        starts_with(result.text(), "edit introduced "@) <==> result.introduces_errors(),
{
    reveal_strlit("edit introduced ");
    reveal_strlit("edit did not introduce syntax errors (");
    let text = result.text();
    if result.introduces_errors() {
        assert(text.subrange(0, 16) == "edit introduced "@);
    } else {
        assert(text[5] == 'd');
        assert(text.len() >= 16 ==> text.subrange(0, 16)[5] == 'd');
        assert("edit introduced "@[5] == 'i');
    }
}

/// A prompt lets one estimate both files and lines, or neither, and no
/// estimate is 0.
pub proof fn law_prompt_estimates_both_or_neither(prompt: Seq<char>)
    ensures
        prompt_scope(prompt).expected_file_count is Some
            <==> prompt_scope(prompt).expected_line_count is Some,
        prompt_scope(prompt).expected_file_count != Some(0usize),
        prompt_scope(prompt).expected_line_count != Some(0usize),
{
}

/// In ASCII prompts letter case makes no difference.
pub proof fn law_prompt_ignores_letter_case(a: Seq<char>, b: Seq<char>)
    requires
        all_ascii(a),
        all_ascii(b),
        a.len() == b.len(),
        forall|i: int| 0 <= i < a.len() ==> ascii_lower(#[trigger] a[i]) == ascii_lower(b[i]),
    ensures
        prompt_scope(lowercase(a)) == prompt_scope(lowercase(b)),
{
    assert(lowercase(a) == lowercase(b));
}

/// `a` is at most as large a limit as `b`; `None` is no limit.
pub open spec fn limit_at_most(a: Option<usize>, b: Option<usize>) -> bool {
    match (a, b) {
        (_, None) => true,
        (None, Some(_)) => false,
        (Some(x), Some(y)) => x <= y,
    }
}

/// `a` expects at most as many files and as many lines as `b`.
pub open spec fn scope_at_most(a: ExpectedEditScope, b: ExpectedEditScope) -> bool {
    limit_at_most(a.expected_file_count, b.expected_file_count) && limit_at_most(
        a.expected_line_count,
        b.expected_line_count,
    )
}

proof fn lemma_contains_in_longer(p: Seq<char>, q: Seq<char>, needle: Seq<char>)
    ensures
        contains(p, needle) || contains(q, needle) ==> contains(p + q, needle),
{
    let s = p + q;
    if contains(p, needle) {
        let i = choose|i: int| occurs_at(p, needle, i);
        assert(s.subrange(i, i + needle.len()) == p.subrange(i, i + needle.len()));
        assert(occurs_at(s, needle, i));
    } else if contains(q, needle) {
        let i = choose|i: int| occurs_at(q, needle, i);
        let j = p.len() + i;
        assert(s.subrange(j, j + needle.len()) == q.subrange(i, i + needle.len()));
        assert(occurs_at(s, needle, j));
    }
}

/// Text added to a prompt in lower case, at either end, keeps or tightens the
/// estimate.
pub proof fn law_longer_prompt_keeps_or_tightens(p: Seq<char>, q: Seq<char>)
    ensures
        scope_at_most(prompt_scope(p + q), prompt_scope(p)),
        scope_at_most(prompt_scope(p + q), prompt_scope(q)),
{
    assert forall|needle: Seq<char>|
        contains(p, needle) || contains(q, needle) implies #[trigger] contains(p + q, needle) by {
        lemma_contains_in_longer(p, q, needle);
    }
    assert(trivial_task(p) || trivial_task(q) ==> trivial_task(p + q));
    assert(small_fix(p) || small_fix(q) ==> small_fix(p + q));
    assert(medium_feature(p) || medium_feature(q) ==> medium_feature(p + q));
}

/// Text added to an ASCII prompt in any letter case, at either end, keeps or
/// tightens the estimate.
pub proof fn law_longer_ascii_prompt_keeps_or_tightens(p: Seq<char>, q: Seq<char>)
    requires
        all_ascii(p),
        all_ascii(q),
    ensures
        scope_at_most(prompt_scope(lowercase(p + q)), prompt_scope(lowercase(p))),
        scope_at_most(prompt_scope(lowercase(p + q)), prompt_scope(lowercase(q))),
{
    assert(all_ascii(p + q));
    assert(lowercase(p + q) == lowercase(p) + lowercase(q));
    law_longer_prompt_keeps_or_tightens(lowercase(p), lowercase(q));
}

/// Without an estimate of both files and lines no edit is anomalous.
pub proof fn law_unknown_scope_is_no_anomaly(expected: ExpectedEditScope, actual: ActualEditScope)
    requires
        expected.expected_file_count is None || expected.expected_line_count is None,
    ensures
        !verdict(expected, actual).is_anomaly,
{
}

/// A count is out of proportion only to smaller counts, and a larger count
/// stays out of proportion, also to what is smaller than was expected.
proof fn lemma_overrun(actual: usize, more: usize, expected: usize, less: usize, threshold: nat)
    requires
        threshold == 3 || threshold == 5,
        actual <= more,
        less <= expected,
    ensures
        overrun(actual as nat, expected as nat, threshold) ==> actual > expected,
        overrun(actual as nat, expected as nat, threshold) ==> overrun(
            more as nat,
            less as nat,
            threshold,
        ),
{
    let x = rounded(actual as nat);
    let y = rounded(expected as nat);
    law_rounding_keeps_order(actual as nat, more as nat);
    law_rounding_keeps_order(less as nat, expected as nat);
    if expected > 0 {
        law_small_counts_are_exact(1);
        law_rounding_keeps_order(1, expected as nat);
        law_ratio_reaches_three(actual, expected);
        law_ratio_reaches_five(actual, expected);
        if actual <= expected {
            law_rounding_keeps_order(actual as nat, expected as nat);
        }
        if less > 0 {
            law_ratio_reaches_three(more, less);
            law_ratio_reaches_five(more, less);
        }
    }
}

/// An edit within the expected scope is no anomaly.
pub proof fn law_expected_scope_is_no_anomaly(files: usize, lines: usize, actual: ActualEditScope)
    requires
        actual.file_count <= files,
        actual.line_count <= lines,
    ensures
        !verdict(
            ExpectedEditScope { expected_file_count: Some(files), expected_line_count: Some(lines) },
            actual,
        ).is_anomaly,
{
    lemma_overrun(actual.file_count, actual.file_count, files, files, 3);
    lemma_overrun(actual.line_count, actual.line_count, lines, lines, 5);
}

/// An edit that touches no file and no line is no anomaly.
pub proof fn law_no_edit_is_no_anomaly(expected: ExpectedEditScope)
    ensures
        !verdict(expected, ActualEditScope { file_count: 0, line_count: 0 }).is_anomaly,
{
    if let (Some(files), Some(lines)) = (
        expected.expected_file_count,
        expected.expected_line_count,
    ) {
        law_expected_scope_is_no_anomaly(
            files,
            lines,
            ActualEditScope { file_count: 0, line_count: 0 },
        );
    }
}

/// An anomalous edit stays anomalous if it grows, and if less is expected.
pub proof fn law_anomaly_persists(
    files: usize,
    lines: usize,
    actual: ActualEditScope,
    fewer_files: usize,
    fewer_lines: usize,
    larger: ActualEditScope,
)
    requires
        fewer_files <= files,
        fewer_lines <= lines,
        actual.file_count <= larger.file_count,
        actual.line_count <= larger.line_count,
        verdict(
            ExpectedEditScope { expected_file_count: Some(files), expected_line_count: Some(lines) },
            actual,
        ).is_anomaly,
    ensures
        verdict(
            ExpectedEditScope {
                expected_file_count: Some(fewer_files),
                expected_line_count: Some(fewer_lines),
            },
            larger,
        ).is_anomaly,
{
    lemma_overrun(actual.file_count, larger.file_count, files, fewer_files, 3);
    lemma_overrun(actual.line_count, larger.line_count, lines, fewer_lines, 5);
}

proof fn lemma_three_times(actual: usize, expected: usize)
    requires
        3 * expected <= 0x100_0000,
    ensures
        overrun(actual as nat, expected as nat, 3) <==> actual >= 3 * expected && actual > 0,
{
    if expected > 0 {
        law_ratio_reaches_three(actual, expected);
        law_small_counts_are_exact(expected as nat);
        if actual <= 0x100_0000 {
            law_small_counts_are_exact(actual as nat);
        } else {
            law_small_counts_are_exact(0x100_0000);
            law_rounding_keeps_order(0x100_0000, actual as nat);
        }
    }
}

proof fn lemma_five_times(actual: usize, expected: usize)
    requires
        5 * expected <= 0x100_0000,
    ensures
        overrun(actual as nat, expected as nat, 5) <==> actual >= 5 * expected && actual > 0,
{
    if expected > 0 {
        law_ratio_reaches_five(actual, expected);
        law_small_counts_are_exact(expected as nat);
        if actual <= 0x100_0000 {
            law_small_counts_are_exact(actual as nat);
        } else {
            law_small_counts_are_exact(0x100_0000);
            law_rounding_keeps_order(0x100_0000, actual as nat);
        }
    }
}

/// Up to expectations whose threefold and fivefold are exact in single
/// precision, an edit is anomalous exactly if it touches at least three times
/// the expected files or changes at least five times the expected lines, and
/// at least one of them.
pub proof fn law_three_times_files_or_five_times_lines(
    files: usize,
    lines: usize,
    actual: ActualEditScope,
)
    requires
        3 * files <= 0x100_0000,
        5 * lines <= 0x100_0000,
    ensures
        verdict(
            ExpectedEditScope { expected_file_count: Some(files), expected_line_count: Some(lines) },
            actual,
        ).is_anomaly <==> {
            ||| actual.file_count >= 3 * files && actual.file_count > 0
            ||| actual.line_count >= 5 * lines && actual.line_count > 0
        },
{
    lemma_three_times(actual.file_count, files);
    lemma_five_times(actual.line_count, lines);
}

/// How large an edit may get before it is anomalous, for each kind of task that
/// a prompt can name.
pub proof fn law_prompt_limits(prompt: Seq<char>, actual: ActualEditScope)
    ensures
        verdict(prompt_scope(prompt), actual).is_anomaly <==> (if trivial_task(prompt) {
            actual.file_count >= 3 || actual.line_count >= 50
        } else if small_fix(prompt) {
            actual.file_count >= 6 || actual.line_count >= 150
        } else if medium_feature(prompt) {
            actual.file_count >= 15 || actual.line_count >= 1000
        } else {
            false
        }),
{
    law_three_times_files_or_five_times_lines(1, 10, actual);
    law_three_times_files_or_five_times_lines(2, 30, actual);
    law_three_times_files_or_five_times_lines(5, 200, actual);
}

/// The reason begins with "edit scope exceeded expectations" exactly if there
/// is an anomaly.
pub proof fn law_reason_tells_anomaly(expected: ExpectedEditScope, actual: ActualEditScope)
    ensures
        starts_with(
            verdict(expected, actual).reason,
            "edit scope exceeded expectations: "@,
        ) <==> verdict(expected, actual).is_anomaly,
{
    reveal_strlit("edit scope exceeded expectations: ");
    reveal_strlit("edit scope within expectations: ");
    reveal_strlit("scope could not be estimated");
    let exceeded = "edit scope exceeded expectations: "@;
    let reason = verdict(expected, actual).reason;
    if verdict(expected, actual).is_anomaly {
        assert(reason.subrange(0, exceeded.len() as int) == exceeded);
    } else if starts_with(reason, exceeded) {
        assert(reason.subrange(0, exceeded.len() as int)[11] == reason[11]);
        assert(exceeded[11] == 'e');
        if expected.expected_file_count is Some && expected.expected_line_count is Some {
            assert(reason[11] == 'w');
        }
    }
}

/// The files that a plan names are the words that name one, each without the
/// punctuation around it, however often and in whatever order they occur.
pub proof fn law_plan_files_are_the_words_that_name_one(plan: Seq<char>, file: Seq<char>)
    ensures
        plan_files(plan).contains(file) <==> names_file(file) && exists|i: int|
            0 <= i < words(plan).len() && file == trim(#[trigger] words(plan)[i], Kept::Path),
{
    lemma_files_named(words(plan), file);
}

proof fn lemma_files_named(list: Seq<Seq<char>>, file: Seq<char>)
    ensures
        files_named(list).contains(file) <==> names_file(file) && exists|i: int|
            0 <= i < list.len() && file == trim(#[trigger] list[i], Kept::Path),
    decreases list.len(),
{
    if list.len() > 0 {
        let rest = list.drop_first();
        lemma_files_named(rest, file);
        if exists|i: int| 0 <= i < rest.len() && file == trim(#[trigger] rest[i], Kept::Path) {
            let i = choose|i: int|
                0 <= i < rest.len() && file == trim(#[trigger] rest[i], Kept::Path);
            assert(list[i + 1] == rest[i]);
        }
        if exists|i: int| 0 <= i < list.len() && file == trim(#[trigger] list[i], Kept::Path) {
            let i = choose|i: int|
                0 <= i < list.len() && file == trim(#[trigger] list[i], Kept::Path);
            if i > 0 {
                assert(rest[i - 1] == list[i]);
            } else {
                assert(list.first() == list[0]);
            }
        }
        if trim(list.first(), Kept::Path) == file {
            assert(list[0] == list.first());
        }
    }
}

/// A plan that lets one estimate the files lets one estimate the lines, and no
/// estimate is 0.
pub proof fn law_plan_with_files_has_lines(files: usize, line: usize)
    requires
        line > 0 || files * LINES_PER_FILE <= usize::MAX,
    ensures
        plan_scope(files as nat, line as nat).expected_file_count is Some ==> plan_scope(
            files as nat,
            line as nat,
        ).expected_line_count is Some,
        plan_scope(files as nat, line as nat).expected_file_count != Some(0usize),
        plan_scope(files as nat, line as nat).expected_line_count != Some(0usize),
{
}

proof fn lemma_return_is_no_change(line: Seq<char>)
    ensures
        is_change(line) == is_change(without_return(line)),
{
    lemma_is_change(line);
    lemma_is_change(without_return(line));
}

proof fn lemma_line_len_before_newline(a: Seq<char>, b: Seq<char>)
    ensures
        line_len(a + seq!['\n'] + b) == line_len(a),
    decreases a.len(),
{
    let s = a + seq!['\n'] + b;
    if a.len() > 0 {
        lemma_line_len_before_newline(a.drop_first(), b);
        assert(s.drop_first() == a.drop_first() + seq!['\n'] + b);
        assert(s[0] == a[0]);
    } else {
        assert(s[0] == '\n');
    }
}

/// The size of two diffs, one after the other on lines of their own, is the
/// sum of their sizes.
pub proof fn law_diff_sizes_add_up(a: Seq<char>, b: Seq<char>)
    ensures
        diff_size(a + seq!['\n'] + b) == diff_size(a) + diff_size(b),
    decreases a.len(),
{
    let s = a + seq!['\n'] + b;
    let n = line_len(a) as int;
    lemma_line_len(a);
    lemma_line_len_before_newline(a, b);
    assert(s.take(n) == a.take(n));
    lemma_return_is_no_change(a.take(n));
    if n == a.len() {
        assert(a.take(n) == a);
        assert(s.skip(n + 1) == b);
        assert(lines(s) == seq![without_return(a)] + lines(b));
        assert(lines(s).drop_first() == lines(b));
        if a.len() > 0 {
            assert(lines(a).drop_first() == Seq::<Seq<char>>::empty());
            assert(changes(lines(a).drop_first()) == 0);
        } else {
            lemma_is_change(a);
        }
    } else {
        let rest = a.skip(n + 1);
        law_diff_sizes_add_up(rest, b);
        assert(s.skip(n + 1) == rest + seq!['\n'] + b);
        assert(lines(s).drop_first() == lines(s.skip(n + 1)));
        assert(lines(a).drop_first() == lines(rest));
    }
}

/// A diff changes no more lines than it has.
pub proof fn law_diff_size_is_at_most_its_lines(diff: Seq<char>)
    ensures
        diff_size(diff) <= lines(diff).len() <= diff.len(),
    decreases diff.len(),
{
    if diff.len() > 0 {
        lemma_line_len(diff);
        let n = line_len(diff) as int;
        if n == diff.len() {
            assert(lines(diff).drop_first() == Seq::<Seq<char>>::empty());
            assert(changes(lines(diff).drop_first()) == 0);
        } else {
            law_diff_size_is_at_most_its_lines(diff.skip(n + 1));
            assert(lines(diff).drop_first() == lines(diff.skip(n + 1)));
        }
    }
}

/// What two runs of tools did together: the files that either touched, and the
/// lines of both.
pub proof fn law_tool_results_add_up(a: Seq<EditRecord>, b: Seq<EditRecord>)
    ensures
        files_touched(a + b) == files_touched(a).union(files_touched(b)),
        lines_changed(a + b) == lines_changed(a) + lines_changed(b),
    decreases a.len(),
{
    if a.len() == 0 {
        assert(a + b == b);
        assert(files_touched(a).union(files_touched(b)) == files_touched(b));
    } else {
        law_tool_results_add_up(a.drop_first(), b);
        assert((a + b).drop_first() == a.drop_first() + b);
        assert((a + b).first() == a.first());
        assert(files_touched(a + b) == files_touched(a).union(files_touched(b)));
    }
}

/// The order of tool results makes no difference.
pub proof fn law_order_of_tool_results_is_irrelevant(a: Seq<EditRecord>, b: Seq<EditRecord>)
    requires
        a.to_multiset() == b.to_multiset(),
    ensures
        files_touched(a) == files_touched(b),
        lines_changed(a) == lines_changed(b),
    decreases a.len(),
{
    a.to_multiset_ensures();
    b.to_multiset_ensures();
    if a.len() == 0 {
        assert(a == b);
    } else {
        let first = a.first();
        let rest = a.drop_first();
        assert(a == seq![first] + rest);
        assert(a.contains(first));
        assert(b.to_multiset().count(first) > 0);
        assert(b.contains(first));
        let i = choose|i: int| 0 <= i < b.len() && b[i] == first;
        let before = b.take(i);
        let after = b.skip(i + 1);
        assert(b == before + seq![first] + after);
        assert(b.remove(i) == before + after);
        assert(a.remove(0) == rest);
        law_order_of_tool_results_is_irrelevant(rest, before + after);
        law_tool_results_add_up(seq![first], rest);
        law_tool_results_add_up(before, after);
        law_tool_results_add_up(before + seq![first], after);
        law_tool_results_add_up(before, seq![first]);
        assert(files_touched(a) == files_touched(b));
    }
}

/// The results of tools other than the two that edit files make no difference.
pub proof fn law_other_tools_do_not_count(
    before: Seq<EditRecord>,
    other: EditRecord,
    after: Seq<EditRecord>,
)
    requires
        !other.is_edit(),
    ensures
        files_touched(before + seq![other] + after) == files_touched(before + after),
        lines_changed(before + seq![other] + after) == lines_changed(before + after),
{
    assert(seq![other].drop_first() == Seq::<EditRecord>::empty());
    assert(files_touched(seq![other].drop_first()) == Set::<Seq<char>>::empty());
    assert(lines_changed(seq![other].drop_first()) == 0);
    law_tool_results_add_up(before, seq![other]);
    law_tool_results_add_up(before + seq![other], after);
    law_tool_results_add_up(before, after);
    assert(files_touched(before + seq![other] + after) == files_touched(before + after));
}

/// However often a file is edited, it counts once: there are no more files than
/// tool results, and an edit of a file that has been touched adds none.
pub proof fn law_file_counts_once(records: Seq<EditRecord>, again: EditRecord)
    ensures
        files_touched(records).len() <= records.len(),
        again.is_edit() && again.input_path is Some && files_touched(records).contains(
            again.input_path->0,
        ) ==> files_touched(records.push(again)) == files_touched(records),
{
    lemma_files_touched_len(records);
    assert(seq![again].drop_first() == Seq::<EditRecord>::empty());
    assert(files_touched(seq![again].drop_first()) == Set::<Seq<char>>::empty());
    assert(records.push(again) == records + seq![again]);
    law_tool_results_add_up(records, seq![again]);
    if again.is_edit() && again.input_path is Some && files_touched(records).contains(
        again.input_path->0,
    ) {
        assert(files_touched(records.push(again)) == files_touched(records));
    }
}

proof fn lemma_files_touched_len(records: Seq<EditRecord>)
    ensures
        files_touched(records).finite(),
        files_touched(records).len() <= records.len(),
    decreases records.len(),
{
    if records.len() > 0 {
        lemma_files_touched_len(records.drop_first());
    }
}

/// Validation reports the number of errors before the edit as it was captured,
/// and the number after it as the buffer has it, however many there are; the
/// difference is what a reader is told.
pub proof fn law_validation_reports_both_counts(before: BufferSnapshot, after: BufferSnapshot)
    ensures
        validation(before.syntax_error_count, after).pre_edit_error_count
            == before.syntax_error_count,
        validation(before.syntax_error_count, after).post_edit_error_count
            == after.syntax_error_count,
        after.syntax_error_count > before.syntax_error_count ==> validation(
            before.syntax_error_count,
            after,
        ).text() == "edit introduced "@ + decimal(
            (after.syntax_error_count - before.syntax_error_count) as nat,
        ) + " new syntax error(s) ("@ + decimal(before.syntax_error_count as nat) + " → "@
            + decimal(after.syntax_error_count as nat) + ")"@,
        after.syntax_error_count <= before.syntax_error_count ==> validation(
            before.syntax_error_count,
            after,
        ).text() == "edit did not introduce syntax errors ("@ + decimal(
            after.syntax_error_count as nat,
        ) + " error(s))"@,
{
}

/// Which estimate a prompt in lower case gets, of whatever length: the words
/// decide that it holds, the smallest kind of task first, and without one of
/// them nothing is estimated.
pub proof fn law_prompt_words_decide(p: Seq<char>)
    ensures
        ({
            let s = prompt_scope(p);
            let trivial = contains(p, "rename"@) || contains(p, "fix typo"@) || contains(
                p,
                "add comment"@,
            ) || contains(p, "change variable"@) || contains(p, "update variable"@);
            let small = contains(p, "fix bug"@) || contains(p, "add import"@) || contains(
                p,
                "update config"@,
            ) || contains(p, "change default"@) || contains(p, "add parameter"@) || contains(
                p,
                "update parameter"@,
            );
            let medium = contains(p, "add feature"@) || contains(p, "implement"@);
            &&& s.expected_file_count == Some(1usize) <==> trivial
            &&& s.expected_line_count == Some(10usize) <==> trivial
            &&& s.expected_file_count == Some(2usize) <==> small && !trivial
            &&& s.expected_line_count == Some(30usize) <==> small && !trivial
            &&& s.expected_file_count == Some(5usize) <==> medium && !small && !trivial
            &&& s.expected_line_count == Some(200usize) <==> medium && !small && !trivial
            &&& s.expected_file_count is None <==> !medium && !small && !trivial
            &&& s.expected_line_count is None <==> !medium && !small && !trivial
        }),
{
}

/// A word for a trivial task decides wherever it stands in a prompt.
pub proof fn law_trivial_task_decides_anywhere(a: Seq<char>, word: Seq<char>, b: Seq<char>)
    requires
        word == "rename"@ || word == "fix typo"@ || word == "add comment"@ || word
            == "change variable"@ || word == "update variable"@,
    ensures
        prompt_scope(a + word + b).expected_file_count == Some(1usize),
        prompt_scope(a + word + b).expected_line_count == Some(10usize),
{
    law_containing_is_concatenation(a + word + b, word);
}

/// A prompt in lower case without any of the words estimates nothing, and no
/// edit is anomalous for it.
pub proof fn law_prompt_without_words_estimates_nothing(p: Seq<char>, actual: ActualEditScope)
    requires
        !contains(p, "rename"@),
        !contains(p, "fix typo"@),
        !contains(p, "add comment"@),
        !contains(p, "change variable"@),
        !contains(p, "update variable"@),
        !contains(p, "fix bug"@),
        !contains(p, "add import"@),
        !contains(p, "update config"@),
        !contains(p, "change default"@),
        !contains(p, "add parameter"@),
        !contains(p, "update parameter"@),
        !contains(p, "add feature"@),
        !contains(p, "implement"@),
    ensures
        prompt_scope(p).expected_file_count is None,
        prompt_scope(p).expected_line_count is None,
        !verdict(prompt_scope(p), actual).is_anomaly,
{
}

/// Each ratio of a result is that of its own actual and expected count in single
/// precision, and infinite where that count was expected to be 0 or was not
/// estimated, whatever is known of the other.
pub proof fn law_each_ratio_is_of_its_own_counts(
    expected: ExpectedEditScope,
    actual: ActualEditScope,
)
    ensures
        expected.expected_line_count matches Some(lines) ==> if lines > 0 {
            is_nearest_quotient(
                verdict(expected, actual).line_ratio,
                rounded(actual.line_count as nat) as int,
                rounded(lines as nat) as int,
            )
        } else {
            verdict(expected, actual).line_ratio == Ratio::Infinite
        },
        expected.expected_line_count is None ==> verdict(expected, actual).line_ratio
            == Ratio::Infinite,
        expected.expected_file_count matches Some(files) ==> if files > 0 {
            is_nearest_quotient(
                verdict(expected, actual).file_ratio,
                rounded(actual.file_count as nat) as int,
                rounded(files as nat) as int,
            )
        } else {
            verdict(expected, actual).file_ratio == Ratio::Infinite
        },
        expected.expected_file_count is None ==> verdict(expected, actual).file_ratio
            == Ratio::Infinite,
{
    if let Some(lines) = expected.expected_line_count {
        law_ratio_is_nearest(actual.line_count, lines);
    }
    if let Some(files) = expected.expected_file_count {
        law_ratio_is_nearest(actual.file_count, files);
    }
}

/// When an edit is anomalous, for all counts: both counts are estimated, and it
/// has some files or lines where none were expected, or its rounded files are
/// at least 3 - 2^-23 times the rounded files expected, or its rounded lines at
/// least 5 - 2^-22 times.
pub proof fn law_anomaly_by_rounded_counts(expected: ExpectedEditScope, actual: ActualEditScope)
    ensures
        verdict(expected, actual).is_anomaly <==> expected.expected_file_count is Some
            && expected.expected_line_count is Some && ({
            let files = expected.expected_file_count->0;
            let lines = expected.expected_line_count->0;
            ||| files == 0 && actual.file_count > 0
            ||| lines == 0 && actual.line_count > 0
            ||| files > 0 && 0x80_0000 * rounded(actual.file_count as nat) >= 0x17f_ffff * rounded(
                files as nat,
            )
            ||| lines > 0 && 0x40_0000 * rounded(actual.line_count as nat) >= 0x13f_ffff * rounded(
                lines as nat,
            )
        }),
{
    if expected.expected_file_count is Some && expected.expected_line_count is Some {
        let files = expected.expected_file_count->0;
        let lines = expected.expected_line_count->0;
        if files > 0 {
            law_ratio_reaches_three(actual.file_count, files);
        }
        if lines > 0 {
            law_ratio_reaches_five(actual.line_count, lines);
        }
    }
}

/// The reason quotes the counts and, for an anomaly, the two ratios of the
/// result itself.
pub proof fn law_reason_quotes_the_result(expected: ExpectedEditScope, actual: ActualEditScope)
    ensures
        ({
            let v = verdict(expected, actual);
            let files = decimal(actual.file_count as nat);
            let lines = decimal(actual.line_count as nat);
            match (expected.expected_file_count, expected.expected_line_count) {
                (Some(f), Some(l)) => if v.is_anomaly {
                    v.reason == "edit scope exceeded expectations: "@ + files
                        + " files touched (expected ~"@ + decimal(f as nat) + ", ratio "@
                        + v.file_ratio.rendered() + "x), "@ + lines
                        + " lines changed (expected ~"@ + decimal(l as nat) + ", ratio "@
                        + v.line_ratio.rendered() + "x)"@
                } else {
                    v.reason == "edit scope within expectations: "@ + files
                        + " files (expected ~"@ + decimal(f as nat) + "), "@ + lines
                        + " lines (expected ~"@ + decimal(l as nat) + ")"@
                },
                _ => v.reason == "scope could not be estimated"@,
            }
        }),
{
}

/// The files touched are exactly the paths that the two editing tools report.
pub proof fn law_files_touched_are_the_edited_paths(records: Seq<EditRecord>, path: Seq<char>)
    ensures
        files_touched(records).contains(path) <==> exists|i: int|
            0 <= i < records.len() && ((#[trigger] records[i]).tool_name == "edit_file"@
                || records[i].tool_name == "write_file"@) && records[i].input_path == Some(path),
    decreases records.len(),
{
    if records.len() > 0 {
        let rest = records.drop_first();
        law_files_touched_are_the_edited_paths(rest, path);
        assert(records.first() == records[0]);
        if files_touched(rest).contains(path) {
            let i = choose|i: int|
                0 <= i < rest.len() && ((#[trigger] rest[i]).tool_name == "edit_file"@
                    || rest[i].tool_name == "write_file"@) && rest[i].input_path == Some(path);
            assert(records[i + 1] == rest[i]);
        }
        if exists|i: int|
            0 <= i < records.len() && ((#[trigger] records[i]).tool_name == "edit_file"@
                || records[i].tool_name == "write_file"@) && records[i].input_path == Some(path) {
            let i = choose|i: int|
                0 <= i < records.len() && ((#[trigger] records[i]).tool_name == "edit_file"@
                    || records[i].tool_name == "write_file"@) && records[i].input_path == Some(
                    path,
                );
            if i > 0 {
                assert(rest[i - 1] == records[i]);
            }
        }
    }
}

/// One more tool result adds the lines of its diff if the tool is one of the two
/// that edit files, and no lines otherwise or without a diff.
pub proof fn law_edit_adds_the_lines_of_its_diff(records: Seq<EditRecord>, next: EditRecord)
    ensures
        lines_changed(Seq::<EditRecord>::empty()) == 0,
        next.diff matches Some(diff) ==> (next.tool_name == "edit_file"@ || next.tool_name
            == "write_file"@) ==> lines_changed(records.push(next)) == lines_changed(records)
            + diff_size(diff),
        next.diff is None || !(next.tool_name == "edit_file"@ || next.tool_name == "write_file"@)
            ==> lines_changed(records.push(next)) == lines_changed(records),
{
    assert(records.push(next) =~= records + seq![next]);
    law_tool_results_add_up(records, seq![next]);
    assert(seq![next].drop_first() =~= Seq::<EditRecord>::empty());
    assert(lines_changed(seq![next].drop_first()) == 0);
}

/// What is read of tool results: each tool's name, and the strings under
/// `input_path` and `diff` in its output.
pub proof fn law_what_is_read_of_tool_results(
    results: Seq<(String, serde_json::Value)>,
    i: int,
    text: Seq<char>,
)
    requires
        0 <= i < results.len(),
    ensures
        records_of(results).len() == results.len(),
        records_of(results)[i].tool_name == results[i].0@,
        records_of(results)[i].input_path == Some(text) <==> string_members(
            results[i].1,
        ).contains_pair("input_path"@, text),
        records_of(results)[i].diff == Some(text) <==> string_members(results[i].1).contains_pair(
            "diff"@,
            text,
        ),
{
}

/// The files touched according to tool results are exactly the strings under
/// `input_path` in the outputs of the two editing tools, of whatever length.
pub proof fn law_edited_paths_in_tool_results(
    results: Seq<(String, serde_json::Value)>,
    path: Seq<char>,
)
    ensures
        files_touched(records_of(results)).contains(path) <==> exists|i: int|
            0 <= i < results.len() && ((#[trigger] results[i]).0@ == "edit_file"@ || results[i].0@
                == "write_file"@) && string_members(results[i].1).contains_pair(
                "input_path"@,
                path,
            ),
{
    let records = records_of(results);
    law_files_touched_are_the_edited_paths(records, path);
    if files_touched(records).contains(path) {
        let i = choose|i: int|
            0 <= i < records.len() && ((#[trigger] records[i]).tool_name == "edit_file"@
                || records[i].tool_name == "write_file"@) && records[i].input_path == Some(path);
        law_what_is_read_of_tool_results(results, i, path);
        assert(results[i].0@ == records[i].tool_name);
    }
    if exists|i: int|
        0 <= i < results.len() && ((#[trigger] results[i]).0@ == "edit_file"@ || results[i].0@
            == "write_file"@) && string_members(results[i].1).contains_pair("input_path"@, path) {
        let i = choose|i: int|
            0 <= i < results.len() && ((#[trigger] results[i]).0@ == "edit_file"@ || results[i].0@
                == "write_file"@) && string_members(results[i].1).contains_pair(
                "input_path"@,
                path,
            );
        law_what_is_read_of_tool_results(results, i, path);
        assert(records[i].input_path == Some(path));
    }
}

/// A record made of plain values holds them as they are.
pub proof fn law_record_holds_its_parts(
    tool_name: &str,
    input_path: Option<&str>,
    diff: Option<&str>,
)
    ensures
        record(tool_name, input_path, diff).tool_name == tool_name@,
        input_path is None <==> record(tool_name, input_path, diff).input_path is None,
        input_path matches Some(path) ==> record(tool_name, input_path, diff).input_path == Some(
            path@,
        ),
        diff is None <==> record(tool_name, input_path, diff).diff is None,
        diff matches Some(text) ==> record(tool_name, input_path, diff).diff == Some(text@),
{
}

/// What one tool does to a set of files: it adds the path that one of the two
/// editing tools reports, and nothing else.
pub proof fn law_edit_touches_its_path(edit: EditRecord, files: Set<Seq<char>>, path: Seq<char>)
    ensures
        edit.touch(files).contains(path) <==> files.contains(path) || (edit.tool_name
            == "edit_file"@ || edit.tool_name == "write_file"@) && edit.input_path == Some(path),
{
}

/// A text is split into lines at each newline; a carriage return before one
/// belongs to no line, and a last line needs no newline.
pub proof fn law_newlines_split_lines(line: Seq<char>, rest: Seq<char>)
    requires
        forall|i: int| 0 <= i < line.len() ==> #[trigger] line[i] != '\n',
    ensures
        lines(line + seq!['\n'] + rest) == seq![
            if line.len() > 0 && line[line.len() - 1] == '\r' {
                line.take(line.len() - 1)
            } else {
                line
            },
        ] + lines(rest),
        line.len() > 0 ==> lines(line) == seq![line],
        lines(Seq::<char>::empty()) == Seq::<Seq<char>>::empty(),
{
    lemma_line_len_is(line, line.len() as int);
    lemma_line_len_before_newline(line, rest);
    let s = line + seq!['\n'] + rest;
    let n = line.len() as int;
    assert(s.take(n) =~= line);
    assert(s.skip(n + 1) =~= rest);
    if line.len() > 0 {
        assert(line.take(n - 1) =~= line.drop_last());
    }
}

/// The size of a diff of one line, of whatever length: 1 if it begins with a
/// plus or a minus sign and not with three of the same, 0 otherwise.
pub proof fn law_size_of_one_line(line: Seq<char>)
    requires
        forall|i: int| 0 <= i < line.len() ==> #[trigger] line[i] != '\n',
    ensures
        diff_size(line) == (if line.len() > 0 && (line[0] == '+' || line[0] == '-') && !(line.len()
            >= 3 && line[1] == line[0] && line[2] == line[0]) {
            1nat
        } else {
            0
        }),
{
    lemma_is_change(line);
    law_newlines_split_lines(line, Seq::empty());
    if line.len() > 0 {
        assert(seq![line].drop_first() =~= Seq::<Seq<char>>::empty());
        assert(changes(seq![line].drop_first()) == 0);
    } else {
        assert(line =~= Seq::<char>::empty());
    }
}

} // verus!
