//! Scope anomaly detection: an edit that is wildly out of proportion to the
//! task that was asked for is a sign of corruption.
//!
//! ```text
//! prompt: "rename variable x to y"   expected: 1 file, few lines
//! edit:   7 files, +1285/-843 lines  -> anomaly
//! ```

use vstd::prelude::*;
use crate::number::{decimal, push_decimal};
use crate::plan::{count_plan_files, find_plan_line, plan_files, plan_line};
use crate::ratio::{measured, Ratio};
use crate::text::{chars_of, contains, has_text};
use crate::unicode::lowercase;

verus! {

/// From this ratio of files on, an edit is anomalous.
pub const FILE_RATIO_THRESHOLD: u8 = 3;

/// From this ratio of lines on, an edit is anomalous.
pub const LINE_RATIO_THRESHOLD: u8 = 5;

/// The lines that a plan is taken to change in each file that it names.
pub const LINES_PER_FILE: usize = 50;

/// The scope that an edit is expected to have.
#[derive(Debug, Clone)]
pub struct ExpectedEditScope {
    /// Estimated largest number of files that should be touched.
    /// `None` means unlimited: the scope could not be estimated with confidence.
    pub expected_file_count: Option<usize>,
    /// Estimated largest number of lines that should change.
    /// `None` means unlimited: the scope could not be estimated with confidence.
    pub expected_line_count: Option<usize>,
}

/// The scope that an edit turned out to have.
#[derive(Debug, Clone)]
pub struct ActualEditScope {
    /// Number of distinct files that were edited.
    pub file_count: usize,
    /// Number of lines added and removed.
    pub line_count: usize,
}

impl Default for ActualEditScope {
    fn default() -> (r: ActualEditScope)
        ensures
            r == (ActualEditScope { file_count: 0, line_count: 0 }),
    {
        ActualEditScope { file_count: 0, line_count: 0 }
    }
}

/// What comparing the expected with the actual scope gives.
#[derive(Debug, Clone)]
pub struct ScopeAnomalyResult {
    /// Whether the actual scope is out of proportion to the expected one.
    pub is_anomaly: bool,
    /// Ratio of actual to expected line count, infinite if the expected line
    /// count is 0 or `None`.
    pub line_ratio: Ratio,
    /// Ratio of actual to expected file count, infinite if the expected file
    /// count is 0 or `None`.
    pub file_ratio: Ratio,
    /// The reason, for a human reader.
    pub reason: String,
}

/// A [`ScopeAnomalyResult`] with its reason as a sequence of characters.
pub struct Verdict {
    pub is_anomaly: bool,
    pub line_ratio: Ratio,
    pub file_ratio: Ratio,
    pub reason: Seq<char>,
}

impl View for ScopeAnomalyResult {
    type V = Verdict;

    open spec fn view(&self) -> Verdict {
        Verdict {
            is_anomaly: self.is_anomaly,
            line_ratio: self.line_ratio,
            file_ratio: self.file_ratio,
            reason: self.reason@,
        }
    }
}

/// A prompt, in lower case, that asks for a trivial task.
pub open spec fn trivial_task(prompt: Seq<char>) -> bool {
    ||| contains(prompt, "rename"@)
    ||| contains(prompt, "fix typo"@)
    ||| contains(prompt, "add comment"@)
    ||| contains(prompt, "change variable"@)
    ||| contains(prompt, "update variable"@)
}

/// A prompt, in lower case, that asks for a small fix.
pub open spec fn small_fix(prompt: Seq<char>) -> bool {
    ||| contains(prompt, "fix bug"@)
    ||| contains(prompt, "add import"@)
    ||| contains(prompt, "update config"@)
    ||| contains(prompt, "change default"@)
    ||| contains(prompt, "add parameter"@)
    ||| contains(prompt, "update parameter"@)
}

/// A prompt, in lower case, that asks for a feature of medium size.
pub open spec fn medium_feature(prompt: Seq<char>) -> bool {
    ||| contains(prompt, "add feature"@)
    ||| contains(prompt, "implement"@)
}

/// The scope that a prompt in lower case lets one expect. The smallest kind of
/// task that the prompt names decides; a prompt that names none of them says
/// nothing about the scope.
pub open spec fn prompt_scope(prompt: Seq<char>) -> ExpectedEditScope {
    if trivial_task(prompt) {
        ExpectedEditScope { expected_file_count: Some(1), expected_line_count: Some(10) }
    } else if small_fix(prompt) {
        ExpectedEditScope { expected_file_count: Some(2), expected_line_count: Some(30) }
    } else if medium_feature(prompt) {
        ExpectedEditScope { expected_file_count: Some(5), expected_line_count: Some(200) }
    } else {
        ExpectedEditScope { expected_file_count: None, expected_line_count: None }
    }
}

impl ExpectedEditScope {
    /// Estimates the expected scope from a user's prompt by the tasks that it
    /// names, whatever their letter case.
    ///
    /// Both fields are `None` where the scope cannot be estimated with
    /// confidence, as in "refactor the authentication module": a missed anomaly
    /// is far better than a false one.
    pub fn from_prompt(prompt: &str) -> (r: ExpectedEditScope)
        ensures
            r == prompt_scope(lowercase(prompt@)),
    {
        let prompt_lower = prompt.to_lowercase();
        ExpectedEditScope::from_lowercase_prompt(prompt_lower.as_str())
    }

    /// Estimates the expected scope from a prompt that is already in lower case.
    pub fn from_lowercase_prompt(prompt: &str) -> (r: ExpectedEditScope)
        ensures
            r == prompt_scope(prompt@),
    {
        let chars = chars_of(prompt);
        let p = chars.as_slice();
        if has_text(p, "rename") || has_text(p, "fix typo") || has_text(
            p,
            "add comment",
        ) || has_text(p, "change variable") || has_text(p, "update variable") {
            return ExpectedEditScope {
                expected_file_count: Some(1),
                expected_line_count: Some(10),
            };
        }
        if has_text(p, "fix bug") || has_text(p, "add import") || has_text(
            p,
            "update config",
        ) || has_text(p, "change default") || has_text(p, "add parameter")
            || has_text(p, "update parameter") {
            return ExpectedEditScope {
                expected_file_count: Some(2),
                expected_line_count: Some(30),
            };
        }
        if has_text(p, "add feature") || has_text(p, "implement") {
            return ExpectedEditScope {
                expected_file_count: Some(5),
                expected_line_count: Some(200),
            };
        }
        ExpectedEditScope { expected_file_count: None, expected_line_count: None }
    }

    /// Estimates the expected scope from the text of an agent's plan, which is
    /// more accurate than from a prompt: from the files that the plan names and
    /// from the line that it refers to, as in "I'll edit parser.rs line 84".
    pub fn from_agent_plan(plan_text: &str) -> (r: ExpectedEditScope)
        requires
            plan_fits(plan_text@),
        ensures
            r == plan_scope(plan_files(plan_text@).len(), plan_line(lowercase(plan_text@)) as nat),
            plan_files(plan_text@).len() <= usize::MAX,
    {
        let files: usize = count_plan_files(plan_text);
        let plan_lower = plan_text.to_lowercase();
        let line: usize = find_plan_line(plan_lower.as_str());
        ExpectedEditScope::from_plan_counts(files, line)
    }

    /// Estimates the expected scope from the text of an agent's plan, unless
    /// the estimate is too large for a `usize`.
    pub fn checked_from_agent_plan(plan_text: &str) -> (r: Option<ExpectedEditScope>)
        ensures
            plan_fits(plan_text@) ==> r == Some(
                plan_scope(plan_files(plan_text@).len(), plan_line(lowercase(plan_text@)) as nat),
            ),
            !plan_fits(plan_text@) ==> r is None,
            r is Some ==> plan_files(plan_text@).len() <= usize::MAX,
    {
        let plan_lower = plan_text.to_lowercase();
        if find_plan_line(plan_lower.as_str()) > 0 || count_plan_files(plan_text) <= usize::MAX
            / LINES_PER_FILE {
            Some(ExpectedEditScope::from_agent_plan(plan_text))
        } else {
            None
        }
    }

    /// Estimates the expected scope from the number of files that a plan names
    /// and from the line that it refers to, 0 for none.
    pub fn from_plan_counts(files: usize, line: usize) -> (r: ExpectedEditScope)
        requires
            line > 0 || files * LINES_PER_FILE <= usize::MAX,
        ensures
            r == plan_scope(files as nat, line as nat),
    {
        ExpectedEditScope {
            expected_file_count: if files == 0 {
                None
            } else {
                Some(files)
            },
            expected_line_count: if line > 0 {
                Some(line)
            } else if files > 0 {
                Some(files * LINES_PER_FILE)
            } else {
                None
            },
        }
    }
}

/// The scope that a plan lets one expect which names `files` files and refers
/// to line `line`, 0 for none. Without a line, each file stands for
/// [`LINES_PER_FILE`] lines.
pub open spec fn plan_scope(files: nat, line: nat) -> ExpectedEditScope {
    ExpectedEditScope {
        expected_file_count: if files == 0 {
            None
        } else {
            Some(files as usize)
        },
        expected_line_count: if line > 0 {
            Some(line as usize)
        } else if files > 0 {
            Some((files * LINES_PER_FILE) as usize)
        } else {
            None
        },
    }
}

/// The scope that a plan lets one expect can be counted in `usize`.
pub open spec fn plan_fits(plan: Seq<char>) -> bool {
    plan_line(lowercase(plan)) > 0 || plan_files(plan).len() * LINES_PER_FILE <= usize::MAX
}

/// A count is out of proportion to what was expected: their ratio reaches
/// `threshold`, or there should have been none at all.
pub open spec fn overrun(actual: nat, expected: nat, threshold: nat) -> bool {
    if expected == 0 {
        actual > 0
    } else {
        measured(actual, expected).at_least(threshold)
    }
}

/// An edit is out of proportion to `files` and `lines`.
pub open spec fn anomalous(files: nat, lines: nat, actual: ActualEditScope) -> bool {
    ||| overrun(actual.file_count as nat, files, FILE_RATIO_THRESHOLD as nat)
    ||| overrun(actual.line_count as nat, lines, LINE_RATIO_THRESHOLD as nat)
}

/// The reason given for an anomaly.
pub open spec fn exceeded_reason(files: nat, lines: nat, actual: ActualEditScope) -> Seq<char> {
    "edit scope exceeded expectations: "@ + decimal(actual.file_count as nat)
        + " files touched (expected ~"@ + decimal(files) + ", ratio "@ + measured(
        actual.file_count as nat,
        files,
    ).rendered() + "x), "@ + decimal(actual.line_count as nat) + " lines changed (expected ~"@
        + decimal(lines) + ", ratio "@ + measured(actual.line_count as nat, lines).rendered()
        + "x)"@
}

/// The reason given where there is no anomaly.
pub open spec fn within_reason(files: nat, lines: nat, actual: ActualEditScope) -> Seq<char> {
    "edit scope within expectations: "@ + decimal(actual.file_count as nat)
        + " files (expected ~"@ + decimal(files) + "), "@ + decimal(actual.line_count as nat)
        + " lines (expected ~"@ + decimal(lines) + ")"@
}

/// The ratio of a count to what was expected, infinite where nothing was.
pub open spec fn known_ratio(actual: nat, expected: Option<usize>) -> Ratio {
    match expected {
        Some(n) => measured(actual, n as nat),
        None => Ratio::Infinite,
    }
}

/// What comparing an expected with an actual scope gives.
pub open spec fn verdict(expected: ExpectedEditScope, actual: ActualEditScope) -> Verdict {
    match (expected.expected_file_count, expected.expected_line_count) {
        (Some(files), Some(lines)) => Verdict {
            is_anomaly: anomalous(files as nat, lines as nat, actual),
            line_ratio: measured(actual.line_count as nat, lines as nat),
            file_ratio: measured(actual.file_count as nat, files as nat),
            reason: if anomalous(files as nat, lines as nat, actual) {
                exceeded_reason(files as nat, lines as nat, actual)
            } else {
                within_reason(files as nat, lines as nat, actual)
            },
        },
        _ => Verdict {
            is_anomaly: false,
            line_ratio: known_ratio(actual.line_count as nat, expected.expected_line_count),
            file_ratio: known_ratio(actual.file_count as nat, expected.expected_file_count),
            reason: "scope could not be estimated"@,
        },
    }
}

/// Compares the expected with the actual scope. Without an estimate of both
/// files and lines there is no anomaly.
pub fn detect_scope_anomaly(expected: &ExpectedEditScope, actual: &ActualEditScope) -> (r:
    ScopeAnomalyResult)
    ensures
        r@ == verdict(*expected, *actual),
        r.line_ratio.wf(),
        r.file_ratio.wf(),
{
    let (files, lines) = match (expected.expected_file_count, expected.expected_line_count) {
        (Some(files), Some(lines)) => (files, lines),
        _ => {
            return ScopeAnomalyResult {
                is_anomaly: false,
                line_ratio: ratio_to(actual.line_count, expected.expected_line_count),
                file_ratio: ratio_to(actual.file_count, expected.expected_file_count),
                reason: "scope could not be estimated".to_owned(),
            };
        },
    };
    let file_ratio = Ratio::of(actual.file_count, files);
    let line_ratio = Ratio::of(actual.line_count, lines);
    let is_anomaly = exceeds(actual.file_count, files, &file_ratio, FILE_RATIO_THRESHOLD)
        || exceeds(actual.line_count, lines, &line_ratio, LINE_RATIO_THRESHOLD);
    let reason = if is_anomaly {
        let mut text = "edit scope exceeded expectations: ".to_owned();
        push_decimal(&mut text, actual.file_count as u128);
        text.append(" files touched (expected ~");
        push_decimal(&mut text, files as u128);
        text.append(", ratio ");
        file_ratio.push_to(&mut text);
        text.append("x), ");
        push_decimal(&mut text, actual.line_count as u128);
        text.append(" lines changed (expected ~");
        push_decimal(&mut text, lines as u128);
        text.append(", ratio ");
        line_ratio.push_to(&mut text);
        text.append("x)");
        text
    } else {
        let mut text = "edit scope within expectations: ".to_owned();
        push_decimal(&mut text, actual.file_count as u128);
        text.append(" files (expected ~");
        push_decimal(&mut text, files as u128);
        text.append("), ");
        push_decimal(&mut text, actual.line_count as u128);
        text.append(" lines (expected ~");
        push_decimal(&mut text, lines as u128);
        text.append(")");
        text
    };
    ScopeAnomalyResult { is_anomaly, line_ratio, file_ratio, reason }
}

/// The ratio of a count to what was expected, infinite where nothing was.
fn ratio_to(actual: usize, expected: Option<usize>) -> (r: Ratio)
    ensures
        r.wf(),
        r == known_ratio(actual as nat, expected),
{
    match expected {
        Some(n) => Ratio::of(actual, n),
        None => Ratio::Infinite,
    }
}

/// Whether a count is out of proportion to what was expected.
fn exceeds(actual: usize, expected: usize, ratio: &Ratio, threshold: u8) -> (r: bool)
    requires
        ratio.wf(),
        *ratio == measured(actual as nat, expected as nat),
    ensures
        r == overrun(actual as nat, expected as nat, threshold as nat),
{
    if expected == 0 {
        actual > 0
    } else {
        ratio.is_at_least(threshold)
    }
}

} // verus!
