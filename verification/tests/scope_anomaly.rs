use edit_guard::plan::{count_plan_files, find_plan_line};
use edit_guard::{
    count_diff_lines, detect_scope_anomaly, ActualEditScope, ExpectedEditScope, Ratio,
};

fn expect(files: usize, lines: usize) -> ExpectedEditScope {
    ExpectedEditScope {
        expected_file_count: Some(files),
        expected_line_count: Some(lines),
    }
}

fn estimate(prompt: &str) -> (Option<usize>, Option<usize>) {
    let scope = ExpectedEditScope::from_prompt(prompt);
    (scope.expected_file_count, scope.expected_line_count)
}

fn plan_estimate(plan: &str) -> (Option<usize>, Option<usize>) {
    let scope = ExpectedEditScope::from_agent_plan(plan);
    let checked = ExpectedEditScope::checked_from_agent_plan(plan).unwrap();
    assert_eq!(scope.expected_file_count, checked.expected_file_count);
    assert_eq!(scope.expected_line_count, checked.expected_line_count);
    (scope.expected_file_count, scope.expected_line_count)
}

fn is_anomaly(expected: &ExpectedEditScope, files: usize, lines: usize) -> bool {
    let actual = ActualEditScope { file_count: files, line_count: lines };
    detect_scope_anomaly(expected, &actual).is_anomaly
}

#[test]
fn test_from_prompt_trivial_rename() {
    let scope = ExpectedEditScope::from_prompt("rename variable x to y");
    assert_eq!(scope.expected_file_count, Some(1));
    assert_eq!(scope.expected_line_count, Some(10));
}

#[test]
fn test_from_prompt_fix_typo() {
    let scope = ExpectedEditScope::from_prompt("Fix typo in README");
    assert_eq!(scope.expected_file_count, Some(1));
    assert_eq!(scope.expected_line_count, Some(10));
}

#[test]
fn test_from_prompt_small_fix() {
    let scope = ExpectedEditScope::from_prompt("fix bug in parser");
    assert_eq!(scope.expected_file_count, Some(2));
    assert_eq!(scope.expected_line_count, Some(30));
}

#[test]
fn test_from_prompt_medium_feature() {
    let scope = ExpectedEditScope::from_prompt("implement user authentication");
    assert_eq!(scope.expected_file_count, Some(5));
    assert_eq!(scope.expected_line_count, Some(200));
}

#[test]
fn test_from_prompt_unknown_scope() {
    let scope = ExpectedEditScope::from_prompt("refactor the authentication module");
    assert_eq!(scope.expected_file_count, None);
    assert_eq!(scope.expected_line_count, None);
}

#[test]
fn test_from_agent_plan_with_files() {
    let plan = "I'll edit parser.rs and update config.toml";
    let scope = ExpectedEditScope::from_agent_plan(plan);
    assert_eq!(scope.expected_file_count, Some(2));
    assert!(scope.expected_line_count.is_some());
}

#[test]
fn test_from_agent_plan_with_lines() {
    let plan = "I'll modify parser.rs around line 84";
    let scope = ExpectedEditScope::from_agent_plan(plan);
    assert_eq!(scope.expected_file_count, Some(1));
    assert_eq!(scope.expected_line_count, Some(84));
}

#[test]
fn test_count_diff_lines() {
    let diff = r#"--- a/file.rs
+++ b/file.rs
@@ -10,7 +10,8 @@
 context line
-old line
+new line
+added line
 context line
"#;
    assert_eq!(count_diff_lines(diff), 3); // 1 removed + 2 added
}

#[test]
fn test_detect_scope_anomaly_within_limits() {
    let expected = ExpectedEditScope {
        expected_file_count: Some(2),
        expected_line_count: Some(50),
    };
    let actual = ActualEditScope {
        file_count: 2,
        line_count: 40,
    };
    let result = detect_scope_anomaly(&expected, &actual);
    assert!(!result.is_anomaly);
}

#[test]
fn test_detect_scope_anomaly_exceeded() {
    let expected = ExpectedEditScope {
        expected_file_count: Some(1),
        expected_line_count: Some(10),
    };
    let actual = ActualEditScope {
        file_count: 7,
        line_count: 1200,
    };
    let result = detect_scope_anomaly(&expected, &actual);
    assert!(result.is_anomaly);
    assert!(result.reason.contains("exceeded expectations"));
}

#[test]
fn test_detect_scope_anomaly_unlimited() {
    let expected = ExpectedEditScope {
        expected_file_count: None,
        expected_line_count: None,
    };
    let actual = ActualEditScope {
        file_count: 100,
        line_count: 5000,
    };
    let result = detect_scope_anomaly(&expected, &actual);
    assert!(!result.is_anomaly);
}

#[test]
fn every_keyword_has_its_estimate() {
    for word in ["rename", "fix typo", "add comment", "change variable", "update variable"] {
        assert_eq!(estimate(word), (Some(1), Some(10)), "{word}");
    }
    for word in [
        "fix bug",
        "add import",
        "update config",
        "change default",
        "add parameter",
        "update parameter",
    ] {
        assert_eq!(estimate(word), (Some(2), Some(30)), "{word}");
    }
    for word in ["add feature", "implement"] {
        assert_eq!(estimate(word), (Some(5), Some(200)), "{word}");
    }
    for word in ["", "refactor", "rewrite", "migrate", "fix the bug", "nam", "implemen"] {
        assert_eq!(estimate(word), (None, None), "{word}");
    }
}

#[test]
fn smallest_task_in_a_prompt_decides() {
    assert_eq!(estimate("implement a way to rename things"), (Some(1), Some(10)));
    assert_eq!(estimate("implement it and fix bug 7"), (Some(2), Some(30)));
    assert_eq!(estimate("refactor, then implement"), (Some(5), Some(200)));
}

#[test]
fn prompts_ignore_letter_case() {
    assert_eq!(estimate("ReNaMe"), (Some(1), Some(10)));
    assert_eq!(estimate("FIX BUG"), (Some(2), Some(30)));
    // Also in texts that are not all ASCII.
    assert_eq!(estimate("ÄNDERE, IMPLEMENT"), (Some(5), Some(200)));
    assert_eq!(plan_estimate("ÄNDERE LINE 12"), (None, Some(12)));
}

#[test]
fn lower_case_prompts_are_taken_as_they_are() {
    let scope = ExpectedEditScope::from_lowercase_prompt("RENAME");
    assert_eq!(scope.expected_file_count, None);
    assert_eq!(scope.expected_line_count, None);
    let scope = ExpectedEditScope::from_lowercase_prompt("please rename");
    assert_eq!(scope.expected_file_count, Some(1));
    assert_eq!(scope.expected_line_count, Some(10));
}

#[test]
fn prompt_limits() {
    let trivial = ExpectedEditScope::from_prompt("rename variable x to y");
    assert!(!is_anomaly(&trivial, 2, 49));
    assert!(is_anomaly(&trivial, 3, 0));
    assert!(is_anomaly(&trivial, 0, 50));
    assert!(is_anomaly(&trivial, 7, 1285 + 843));
    let small = ExpectedEditScope::from_prompt("fix bug");
    assert!(!is_anomaly(&small, 5, 149));
    assert!(is_anomaly(&small, 6, 0));
    assert!(is_anomaly(&small, 0, 150));
    let medium = ExpectedEditScope::from_prompt("add feature");
    assert!(!is_anomaly(&medium, 14, 999));
    assert!(is_anomaly(&medium, 15, 0));
    assert!(is_anomaly(&medium, 0, 1000));
    let unknown = ExpectedEditScope::from_prompt("rewrite everything");
    assert!(!is_anomaly(&unknown, usize::MAX, usize::MAX));
}

#[test]
fn plans_name_files() {
    assert_eq!(plan_estimate(""), (None, None));
    assert_eq!(plan_estimate("nothing to see"), (None, None));
    assert_eq!(plan_estimate("Edit `parser.rs`, (src/auth/login) and \"x.h\"!"), (Some(3), Some(150)));
    assert_eq!(plan_estimate("a.rs b.rs a.rs 'a.rs'"), (Some(2), Some(100)));
    assert_eq!(plan_estimate("either/or"), (Some(1), Some(50)));
    assert_eq!(plan_estimate("I'll edit parser.rs line 84"), (Some(1), Some(84)));
    for extension in [
        "rs", "ts", "js", "py", "go", "java", "c", "cpp", "h", "tsx", "jsx", "toml",
    ] {
        assert_eq!(count_plan_files(&format!("see main.{extension} now")), 1, "{extension}");
        assert_eq!(count_plan_files(&format!("see main.{extension}z now")), 0, "{extension}");
    }
    assert_eq!(count_plan_files("notes.md main.RS"), 0);
    // Letters beyond ASCII belong to a word, other symbols do not.
    assert_eq!(count_plan_files("a.rs éa.rs"), 2);
    assert_eq!(count_plan_files("a.rs →a.rs"), 1);
}

#[test]
fn plans_refer_to_lines() {
    assert_eq!(find_plan_line("lines 10-15"), 15);
    assert_eq!(find_plan_line("line 84"), 84);
    assert_eq!(find_plan_line("line number 84"), 84);
    assert_eq!(find_plan_line("line 7 or 84"), 7);
    assert_eq!(find_plan_line("line 7 84"), 84);
    assert_eq!(find_plan_line("line of the form 84"), 0);
    assert_eq!(find_plan_line("line"), 0);
    assert_eq!(find_plan_line("84"), 0);
    assert_eq!(find_plan_line("inline the call on line 3"), 0);
    assert_eq!(find_plan_line("line (#84)."), 84);
    assert_eq!(find_plan_line("line 10-15-20"), 0);
    assert_eq!(find_plan_line("line 10-+15"), 15);
    assert_eq!(find_plan_line("line 20-15"), 15);
    assert_eq!(find_plan_line("line 1/2"), 0);
    assert_eq!(find_plan_line("line 007"), 7);
    assert_eq!(find_plan_line("line ½84½"), 0);
    assert_eq!(find_plan_line("line é84é"), 84);
    assert_eq!(find_plan_line(&format!("line {}", usize::MAX)), usize::MAX);
    assert_eq!(find_plan_line(&format!("line {}0", usize::MAX)), 0);
    assert_eq!(find_plan_line(&format!("line {}", u64::MAX as u128 + 1)), 0);
    assert_eq!(plan_estimate("LINE 12"), (None, Some(12)));
    assert_eq!(plan_estimate("edit a.rs, line 0"), (Some(1), Some(50)));
}

#[test]
fn plan_counts_give_estimates() {
    let scope = ExpectedEditScope::from_plan_counts(0, 0);
    assert_eq!((scope.expected_file_count, scope.expected_line_count), (None, None));
    let scope = ExpectedEditScope::from_plan_counts(0, 9);
    assert_eq!((scope.expected_file_count, scope.expected_line_count), (None, Some(9)));
    let scope = ExpectedEditScope::from_plan_counts(4, 0);
    assert_eq!((scope.expected_file_count, scope.expected_line_count), (Some(4), Some(200)));
    let scope = ExpectedEditScope::from_plan_counts(usize::MAX, 1);
    assert_eq!((scope.expected_file_count, scope.expected_line_count), (Some(usize::MAX), Some(1)));
}

/// Words are split where the standard library sees white space, and nowhere else.
#[test]
fn white_space_separates_words() {
    for c in '\0'..=char::MAX {
        let plan = format!("a/{c}b/");
        let split = count_plan_files(&plan) == 2;
        assert_eq!(split, c.is_whitespace(), "{:?}", c);
        assert_eq!(plan.split_whitespace().count() == 2, split);
    }
}

#[test]
fn words_are_trimmed_to_letters_and_numbers() {
    for c in '\0'..=char::MAX {
        if c.is_whitespace() {
            continue;
        }
        let plan = format!("{c}a.rs a.rs");
        let kept = c.is_alphanumeric() || c == '.' || c == '/';
        assert_eq!(count_plan_files(&plan), if kept { 2 } else { 1 }, "{:?}", c);
    }
}

#[test]
fn diff_lines_are_counted() {
    assert_eq!(count_diff_lines(""), 0);
    assert_eq!(count_diff_lines("+"), 1);
    assert_eq!(count_diff_lines("-"), 1);
    assert_eq!(count_diff_lines("+\r\n-\r\n"), 2);
    assert_eq!(count_diff_lines("++\n--\n"), 2);
    assert_eq!(count_diff_lines("+++\n---\n@@\n"), 0);
    assert_eq!(count_diff_lines("+++ b\n--- a\n@@ -1 +1 @@"), 0);
    assert_eq!(count_diff_lines(" +\n a\n\n\r\n"), 0);
    assert_eq!(count_diff_lines("+-+\n-+-\n++-\n"), 3);
    assert_eq!(count_diff_lines("+a\r+b\r"), 1);
    assert_eq!(count_diff_lines("\n\n+x"), 1);
}

#[test]
fn diff_sizes_add_up() {
    let parts = ["", "+a", "-b\n", "--- a\n+++ b\n+c\r", " d\n-e\n+f"];
    for a in parts {
        for b in parts {
            assert_eq!(
                count_diff_lines(&format!("{a}\n{b}")),
                count_diff_lines(a) + count_diff_lines(b)
            );
        }
        assert!(count_diff_lines(a) <= a.lines().count());
    }
}

#[test]
fn reasons_are_exact() {
    let actual = ActualEditScope { file_count: 7, line_count: 1200 };
    let result = detect_scope_anomaly(&expect(1, 10), &actual);
    assert_eq!(
        result.reason,
        "edit scope exceeded expectations: 7 files touched (expected ~1, ratio 7.0x), \
         1200 lines changed (expected ~10, ratio 120.0x)"
    );
    let actual = ActualEditScope { file_count: 2, line_count: 40 };
    let result = detect_scope_anomaly(&expect(2, 50), &actual);
    assert_eq!(
        result.reason,
        "edit scope within expectations: 2 files (expected ~2), 40 lines (expected ~50)"
    );
}

#[test]
fn each_ratio_follows_its_own_expectation() {
    let actual = ActualEditScope { file_count: 7, line_count: 1200 };
    let seven = Ratio::of(7, 1);
    assert_eq!(f32::from_bits(seven.to_bits()), 7.0);
    let files = ExpectedEditScope { expected_file_count: Some(1), expected_line_count: None };
    let result = detect_scope_anomaly(&files, &actual);
    assert!(!result.is_anomaly);
    assert_eq!(result.file_ratio, seven);
    assert_eq!(result.line_ratio, Ratio::Infinite);
    assert_eq!(result.reason, "scope could not be estimated");
    let lines = ExpectedEditScope { expected_file_count: None, expected_line_count: Some(10) };
    let result = detect_scope_anomaly(&lines, &actual);
    assert!(!result.is_anomaly);
    assert_eq!(result.file_ratio, Ratio::Infinite);
    assert_eq!(f32::from_bits(result.line_ratio.to_bits()), 120.0);
    assert_eq!(result.reason, "scope could not be estimated");
    let zero = ExpectedEditScope { expected_file_count: Some(0), expected_line_count: None };
    let result = detect_scope_anomaly(&zero, &actual);
    assert!(!result.is_anomaly);
    assert_eq!(result.file_ratio, Ratio::Infinite);
    let neither = ExpectedEditScope { expected_file_count: None, expected_line_count: None };
    let result = detect_scope_anomaly(&neither, &actual);
    assert_eq!(result.file_ratio, Ratio::Infinite);
    assert_eq!(result.line_ratio, Ratio::Infinite);
    assert_eq!(result.reason, "scope could not be estimated");
}

#[test]
fn longer_prompts_keep_or_tighten() {
    let limit = |n: Option<usize>| n.unwrap_or(usize::MAX);
    let prompts = ["", "Rename x", "FIX BUG", "implement it", "refactor", "re", "name", "é fix typo"];
    for p in prompts {
        for q in prompts {
            let both = estimate(&format!("{p}{q}"));
            for one in [estimate(p), estimate(q)] {
                assert!(limit(both.0) <= limit(one.0), "{p}{q}");
                assert!(limit(both.1) <= limit(one.1), "{p}{q}");
            }
        }
    }
    assert_eq!(estimate("re"), (None, None));
    assert_eq!(estimate("rename"), (Some(1), Some(10)));
}

#[test]
fn nothing_expected() {
    let some = ActualEditScope { file_count: 1, line_count: 3 };
    let result = detect_scope_anomaly(&expect(0, 1), &some);
    assert!(result.is_anomaly);
    assert_eq!(result.file_ratio, Ratio::Infinite);
    assert_eq!(
        result.reason,
        "edit scope exceeded expectations: 1 files touched (expected ~0, ratio infx), \
         3 lines changed (expected ~1, ratio 3.0x)"
    );
    let none = ActualEditScope::default();
    assert_eq!((none.file_count, none.line_count), (0, 0));
    let result = detect_scope_anomaly(&expect(0, 0), &none);
    assert!(!result.is_anomaly);
    assert_eq!(result.file_ratio, Ratio::Infinite);
    assert_eq!(result.line_ratio, Ratio::Infinite);
    assert!(!is_anomaly(&expect(5, 5), 0, 0));
    assert!(is_anomaly(&expect(5, 0), 0, 1));
}

const COUNTS: [usize; 34] = [
    1, 2, 3, 4, 5, 6, 7, 9, 10, 13, 15, 20, 25, 40, 49, 50, 51, 64, 100, 333, 1000, 1201, 65_535,
    4_194_303, 5_592_407, 8_388_609, 16_777_215, 16_777_216, 16_777_217, 16_777_221, 16_777_219,
    50_331_657, 4_000_000_001, usize::MAX,
];

/// Ratios, the verdict and the reason agree with the machine's own single
/// precision arithmetic.
#[test]
fn ratios_are_single_precision() {
    for a in COUNTS.into_iter().chain([0]) {
        for b in COUNTS {
            let ratio = Ratio::of(a, b);
            let float = a as f32 / b as f32;
            assert_eq!(ratio.to_bits(), float.to_bits(), "{a} / {b}");
            assert_eq!(ratio.is_at_least(3), float >= 3.0, "{a} / {b}");
            assert_eq!(ratio.is_at_least(5), float >= 5.0, "{a} / {b}");
            let mut text = String::from("r=");
            ratio.push_to(&mut text);
            assert_eq!(text, format!("r={:.1}", float), "{a} / {b}");
            let by_files = is_anomaly(&expect(b, 1), a, 0);
            assert_eq!(by_files, float >= 3.0, "{a} / {b}");
            let by_lines = is_anomaly(&expect(1, b), 0, a);
            assert_eq!(by_lines, float >= 5.0, "{a} / {b}");
        }
    }
    let infinite = Ratio::of(1, 0);
    assert_eq!(infinite.to_bits(), f32::INFINITY.to_bits());
    let mut text = String::new();
    infinite.push_to(&mut text);
    assert_eq!(text, format!("{:.1}", f32::INFINITY));
}

#[test]
fn halves_of_a_tenth_round_to_even() {
    for (a, b, text) in [
        (13usize, 4usize, "3.2"),
        (15, 4, "3.8"),
        (1, 4, "0.2"),
        (3, 4, "0.8"),
        (1, 20, "0.1"),
        (1, 21, "0.0"),
    ] {
        let mut out = String::new();
        Ratio::of(a, b).push_to(&mut out);
        assert_eq!(out, text);
        assert_eq!(out, format!("{:.1}", a as f32 / b as f32));
    }
}

#[test]
fn anomaly_persists() {
    for files in [0usize, 1, 2, 10, 5_592_407] {
        for actual in COUNTS {
            let now = is_anomaly(&expect(files, 100), actual, 0);
            if now {
                assert!(is_anomaly(&expect(files, 100), actual.saturating_add(1), 7));
                assert!(is_anomaly(&expect(files / 2, 50), actual, 0));
            }
            if actual <= files {
                assert!(!now);
            }
        }
    }
}

#[test]
fn reason_tells_anomaly() {
    let unknown = ExpectedEditScope { expected_file_count: None, expected_line_count: None };
    for expected in [expect(1, 1), expect(0, 9), expect(20, 20), unknown] {
        for count in [0usize, 1, 2, 3, 5, 59, 60, 100] {
            let actual = ActualEditScope { file_count: count, line_count: count };
            let result = detect_scope_anomaly(&expected, &actual);
            assert_eq!(
                result.reason.starts_with("edit scope exceeded expectations: "),
                result.is_anomaly
            );
        }
    }
}
