use edit_guard::tool_results::EditTally;
use edit_guard::ActualEditScope;
use serde_json::{Number, Value};

fn output(members: &[(&str, Value)]) -> Value {
    let mut object: serde_json::Map<String, Value> = serde_json::Map::new();
    for (key, value) in members {
        object.insert(key.to_string(), value.clone());
    }
    Value::Object(object)
}

fn text(s: &str) -> Value {
    Value::String(s.to_string())
}

fn edit(tool: &str, path: &str, diff: &str) -> (String, Value) {
    (
        tool.to_string(),
        output(&[("input_path", text(path)), ("diff", text(diff)), ("type", text("success"))]),
    )
}

fn scope(results: Vec<(String, Value)>) -> (usize, usize) {
    let checked = ActualEditScope::checked_from_tool_results(results.clone().into_iter()).unwrap();
    let scope = ActualEditScope::from_tool_results(results.into_iter());
    assert_eq!(checked.file_count, scope.file_count);
    assert_eq!(checked.line_count, scope.line_count);
    (scope.file_count, scope.line_count)
}

#[test]
fn edits_are_tallied() {
    assert_eq!(scope(vec![]), (0, 0));
    let results = vec![
        edit("edit_file", "src/a.rs", "--- a\n+++ b\n-x\n+y\n+z\n"),
        edit("write_file", "src/b.rs", "+one\n"),
        edit("edit_file", "src/a.rs", "-gone\n"),
    ];
    assert_eq!(scope(results), (2, 5));
}

#[test]
fn other_tools_do_not_count() {
    let edits = vec![edit("edit_file", "a", "+x"), edit("write_file", "b", "-y")];
    let mut more = edits.clone();
    for tool in ["read_file", "terminal", "", "edit_files", "Edit_file", "edit_fil"] {
        more.insert(1, edit(tool, "c", "+x\n+y\n"));
    }
    assert_eq!(scope(edits), (2, 2));
    assert_eq!(scope(more), (2, 2));
}

#[test]
fn order_makes_no_difference() {
    let results = vec![
        edit("edit_file", "a", "+x\n+y"),
        edit("edit_file", "b", "-x"),
        edit("read_file", "c", "-x"),
        edit("write_file", "a", ""),
    ];
    let reversed: Vec<(String, Value)> = results.iter().rev().cloned().collect();
    assert_eq!(scope(results), (2, 3));
    assert_eq!(scope(reversed), (2, 3));
}

#[test]
fn a_file_counts_once() {
    let results = vec![edit("edit_file", "a", "+x"); 5];
    assert_eq!(scope(results), (1, 5));
    // Paths are compared as they are written.
    assert_eq!(scope(vec![edit("edit_file", "a", ""), edit("edit_file", "./a", "")]), (2, 0));
}

#[test]
fn only_string_members_are_read() {
    let tool = || "edit_file".to_string();
    assert_eq!(scope(vec![(tool(), Value::Null)]), (0, 0));
    assert_eq!(scope(vec![(tool(), text("+x"))]), (0, 0));
    assert_eq!(scope(vec![(tool(), Value::Array(vec![text("input_path"), text("diff")]))]), (0, 0));
    assert_eq!(scope(vec![(tool(), output(&[("diff", text("+x\n-y"))]))]), (0, 2));
    assert_eq!(scope(vec![(tool(), output(&[("input_path", text("a"))]))]), (1, 0));
    let numbers = output(&[
        ("input_path", Value::Number(Number::from(7))),
        ("diff", Value::Bool(true)),
        ("Diff", text("+x")),
    ]);
    assert_eq!(scope(vec![(tool(), numbers)]), (0, 0));
    let nested = output(&[("output", output(&[("input_path", text("a")), ("diff", text("+x"))]))]);
    assert_eq!(scope(vec![(tool(), nested)]), (0, 0));
}

#[test]
fn tally_takes_plain_values() {
    let mut tally = EditTally::new();
    assert!(tally.checked_add("edit_file", Some("a"), Some("+x\n+y\n")));
    assert!(tally.checked_add("write_file", Some("b"), None));
    assert!(tally.checked_add("write_file", None, Some("-z")));
    assert!(tally.checked_add("read_file", Some("c"), Some("-z")));
    let scope = tally.scope();
    assert_eq!((scope.file_count, scope.line_count), (2, 3));
}
