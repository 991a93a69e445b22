use edit_guard::{
    capture_pre_edit_error_count, validate_post_edit, AstValidationResult, BufferSnapshot,
};

#[test]
fn test_validation_result_no_new_errors() {
    let result = AstValidationResult {
        pre_edit_error_count: 2,
        post_edit_error_count: 2,
    };
    assert!(!result.has_new_errors());
    assert!(
        result.description().contains("did not introduce"),
        "description: {}",
        result.description()
    );
}

#[test]
fn test_validation_result_with_new_errors() {
    let result = AstValidationResult {
        pre_edit_error_count: 0,
        post_edit_error_count: 3,
    };
    assert!(result.has_new_errors());
    let desc = result.description();
    assert!(desc.contains("3 new syntax error"), "description: {desc}");
    assert!(desc.contains("0 → 3"), "description: {desc}");
}

#[test]
fn test_validation_result_fewer_errors() {
    // An edit that fixes errors is fine: improvements are not rejected.
    let result = AstValidationResult {
        pre_edit_error_count: 5,
        post_edit_error_count: 2,
    };
    assert!(!result.has_new_errors());
}

#[test]
fn test_validation_result_zero_to_zero() {
    let result = AstValidationResult {
        pre_edit_error_count: 0,
        post_edit_error_count: 0,
    };
    assert!(!result.has_new_errors());
}

#[test]
fn descriptions_are_exact() {
    let worse = AstValidationResult { pre_edit_error_count: 7, post_edit_error_count: 1_010 };
    assert_eq!(
        worse.description(),
        "edit introduced 1003 new syntax error(s) (7 → 1010)"
    );
    let largest = AstValidationResult {
        pre_edit_error_count: usize::MAX,
        post_edit_error_count: usize::MAX,
    };
    assert_eq!(
        largest.description(),
        format!("edit did not introduce syntax errors ({} error(s))", usize::MAX)
    );
}

#[test]
fn old_errors_are_not_blamed() {
    let before = BufferSnapshot { syntax_error_count: 4 };
    let pre = capture_pre_edit_error_count(&before);
    assert_eq!(pre, 4);
    for (count, rejected) in [(0usize, false), (3, false), (4, false), (5, true)] {
        let after = BufferSnapshot { syntax_error_count: count };
        let result = validate_post_edit(pre, &after);
        assert_eq!(result.pre_edit_error_count, 4);
        assert_eq!(result.post_edit_error_count, count);
        assert_eq!(result.has_new_errors(), rejected);
        assert_eq!(result.description().starts_with("edit introduced "), rejected);
    }
}
