//! The scope of an edit, read off the results of the tools that made it.

use vstd::prelude::*;
use vstd::hash_set::StringHashSet;
use vstd::std_specs::iter::IteratorSpec;
use crate::diff::{count_diff_lines, diff_size};
use crate::scope_anomaly::ActualEditScope;
use crate::text::same_text;

verus! {

/// `serde_json::Value`, a JSON value of any kind.
#[verifier::external_type_specification]
#[verifier::external_body]
pub struct ExValue(serde_json::Value);

/// The members of a JSON object whose values are strings, by key, and no
/// members for any other JSON value.
pub uninterp spec fn string_members(value: serde_json::Value) -> Map<Seq<char>, Seq<char>>;

/// `serde_json::Value::get` with a string, and `serde_json::Value::as_str` on
/// what it finds: the text of the member `key`, if `value` is an object that
/// has a member of that name and the member is a string; nothing otherwise.
#[verifier::external_body]
fn string_member<'a>(value: &'a serde_json::Value, key: &str) -> (r: Option<&'a str>)
    ensures
        r is Some <==> string_members(*value).contains_key(key@),
        r is Some ==> r->0@ == string_members(*value)[key@],
{
    match value.get(key) {
        Some(member) => member.as_str(),
        None => None,
    }
}

/// What the scope of an edit depends on in one tool result.
pub struct EditRecord {
    pub tool_name: Seq<char>,
    pub input_path: Option<Seq<char>>,
    pub diff: Option<Seq<char>>,
}

impl EditRecord {
    /// The tool edits files.
    pub open spec fn is_edit(self) -> bool {
        self.tool_name == "edit_file"@ || self.tool_name == "write_file"@
    }

    /// The number of lines that the tool added and removed.
    pub open spec fn size(self) -> nat {
        if self.is_edit() && self.diff is Some {
            diff_size(self.diff->0)
        } else {
            0
        }
    }

    /// `files`, and the file that the tool touched.
    pub open spec fn touch(self, files: Set<Seq<char>>) -> Set<Seq<char>> {
        if self.is_edit() && self.input_path is Some {
            files.insert(self.input_path->0)
        } else {
            files
        }
    }
}

/// The distinct files that some tools touched.
pub open spec fn files_touched(records: Seq<EditRecord>) -> Set<Seq<char>>
    decreases records.len(),
{
    if records.len() == 0 {
        Set::empty()
    } else {
        records.first().touch(files_touched(records.drop_first()))
    }
}

/// The number of lines that some tools added and removed.
pub open spec fn lines_changed(records: Seq<EditRecord>) -> nat
    decreases records.len(),
{
    if records.len() == 0 {
        0
    } else {
        records.first().size() + lines_changed(records.drop_first())
    }
}

/// The text under a key, if there is one.
pub open spec fn lookup(members: Map<Seq<char>, Seq<char>>, key: Seq<char>) -> Option<Seq<char>> {
    if members.contains_key(key) {
        Some(members[key])
    } else {
        None
    }
}

/// What the scope of an edit depends on in a tool's name and its output.
pub open spec fn record_of(tool_result: (String, serde_json::Value)) -> EditRecord {
    EditRecord {
        tool_name: tool_result.0@,
        input_path: lookup(string_members(tool_result.1), "input_path"@),
        diff: lookup(string_members(tool_result.1), "diff"@),
    }
}

/// What the scope of an edit depends on in some tools' names and outputs.
pub open spec fn records_of(tool_results: Seq<(String, serde_json::Value)>) -> Seq<EditRecord> {
    tool_results.map_values(|tool_result: (String, serde_json::Value)| record_of(tool_result))
}

/// The characters of a text, if there is one.
pub open spec fn chars_if_any(text: Option<&str>) -> Option<Seq<char>> {
    match text {
        Some(text) => Some(text@),
        None => None,
    }
}

/// A tool's name, and the path and the diff in its output, as a record.
pub open spec fn record(
    tool_name: &str,
    input_path: Option<&str>,
    diff: Option<&str>,
) -> EditRecord {
    EditRecord {
        tool_name: tool_name@,
        input_path: chars_if_any(input_path),
        diff: chars_if_any(diff),
    }
}

/// The scope of the edits seen so far.
pub struct EditTally {
    files: StringHashSet,
    line_count: usize,
}

impl EditTally {
    /// The distinct files touched so far.
    pub closed spec fn files(self) -> Set<Seq<char>> {
        self.files@
    }

    /// The number of lines added and removed so far.
    pub closed spec fn lines(self) -> nat {
        self.line_count as nat
    }

    /// A tally of no edits.
    pub fn new() -> (r: EditTally)
        ensures
            r.files() == Set::<Seq<char>>::empty(),
            r.lines() == 0,
    {
        EditTally { files: StringHashSet::new(), line_count: 0 }
    }

    /// Adds what one tool did, unless the number of lines would get too large
    /// for a `usize`, in which case nothing changes. Says whether it was added.
    pub fn checked_add(
        &mut self,
        tool_name: &str,
        input_path: Option<&str>,
        diff: Option<&str>,
    ) -> (r: bool)
        ensures
            r == (old(self).lines() + record(tool_name, input_path, diff).size() <= usize::MAX),
            r ==> final(self).lines() == old(self).lines() + record(
                tool_name,
                input_path,
                diff,
            ).size(),
            r ==> final(self).files() == record(tool_name, input_path, diff).touch(
                old(self).files(),
            ),
            !r ==> *final(self) == *old(self),
    {
        if !same_text(tool_name, "edit_file") && !same_text(tool_name, "write_file") {
            return true;
        }
        let size: usize = match diff {
            Some(diff) => count_diff_lines(diff),
            None => 0,
        };
        if size > usize::MAX - self.line_count {
            return false;
        }
        if let Some(path) = input_path {
            self.files.insert(path.to_owned());
        }
        self.line_count = self.line_count + size;
        true
    }

    /// The scope of the edits seen so far.
    pub fn scope(&self) -> (r: ActualEditScope)
        ensures
            r.file_count == self.files().len(),
            r.line_count == self.lines(),
    {
        ActualEditScope { file_count: self.files.len(), line_count: self.line_count }
    }
}

impl ActualEditScope {
    /// Reads the actual scope off tool results, each a tool's name and its
    /// output: the distinct files under `input_path` and the number of changed
    /// lines under `diff`, in the outputs of the tools `edit_file` and
    /// `write_file`.
    pub fn from_tool_results(
        tool_results: impl Iterator<Item = (String, serde_json::Value)>,
    ) -> (r: ActualEditScope)
        requires
            tool_results.obeys_prophetic_iter_laws(),
            tool_results.decrease() is Some,
            lines_changed(records_of(tool_results.remaining())) <= usize::MAX,
        ensures
            r.file_count == files_touched(records_of(tool_results.remaining())).len(),
            r.line_count == lines_changed(records_of(tool_results.remaining())),
    {
        match ActualEditScope::checked_from_tool_results(tool_results) {
            Some(scope) => scope,
            None => vstd::pervasive::unreached(),
        }
    }

    /// Reads the actual scope off tool results, unless the number of changed
    /// lines is too large for a `usize`.
    pub fn checked_from_tool_results(
        tool_results: impl Iterator<Item = (String, serde_json::Value)>,
    ) -> (r: Option<ActualEditScope>)
        requires
            tool_results.obeys_prophetic_iter_laws(),
            tool_results.decrease() is Some,
        ensures
            r is Some <==> lines_changed(records_of(tool_results.remaining())) <= usize::MAX,
            r is Some ==> r->0.file_count == files_touched(
                records_of(tool_results.remaining()),
            ).len(),
            r is Some ==> r->0.line_count == lines_changed(records_of(tool_results.remaining())),
    {
        let mut tally = EditTally::new();
        let mut rest = tool_results;
        assert(Set::empty().union(files_touched(records_of(tool_results.remaining())))
            == files_touched(records_of(tool_results.remaining())));
        loop
            invariant
                rest.obeys_prophetic_iter_laws(),
                rest.decrease() is Some,
                tally.lines() + lines_changed(records_of(rest.remaining())) == lines_changed(
                    records_of(tool_results.remaining()),
                ),
                tally.files().union(files_touched(records_of(rest.remaining())))
                    == files_touched(records_of(tool_results.remaining())),
            ensures
                tally.lines() == lines_changed(records_of(tool_results.remaining())),
                tally.files() == files_touched(records_of(tool_results.remaining())),
            decreases rest.decrease()->0,
        {
            let ghost before = tally;
            let ghost records = records_of(rest.remaining());
            match rest.next() {
                None => {
                    assert(tally.files().union(files_touched(records)) == tally.files());
                    break;
                },
                Some((tool_name, output)) => {
                    let input_path = string_member(&output, "input_path");
                    let diff = string_member(&output, "diff");
                    let name = tool_name.as_str();
                    assert(record(name, input_path, diff) == records.first());
                    assert(records_of(rest.remaining()) == records.drop_first());
                    if !tally.checked_add(name, input_path, diff) {
                        return None;
                    }
                    assert(tally.files().union(files_touched(records.drop_first()))
                        == before.files().union(files_touched(records)));
                },
            }
        }
        Some(tally.scope())
    }
}

} // verus!
