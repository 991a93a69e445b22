//! Syntax validation: an edit that adds syntax errors to a buffer is rejected.
//!
//! ```text
//! before the edit:  count the buffer's syntax errors
//! apply the edit, parse again, in memory
//! after the edit:   count them again; more than before -> reject
//! ```
//!
//! Errors that were there before the edit are not held against it.

use vstd::prelude::*;
use crate::number::{decimal, push_decimal};

verus! {

/// What validation reads of a parsed buffer.
#[derive(Debug, Clone)]
pub struct BufferSnapshot {
    /// Number of syntax errors in the buffer.
    pub syntax_error_count: usize,
}

/// What validating an edit gives.
#[derive(Debug, Clone)]
pub struct AstValidationResult {
    /// Number of syntax errors before the edit.
    pub pre_edit_error_count: usize,
    /// Number of syntax errors after the edit.
    pub post_edit_error_count: usize,
}

impl AstValidationResult {
    /// The edit introduced syntax errors.
    pub open spec fn introduces_errors(self) -> bool {
        self.post_edit_error_count > self.pre_edit_error_count
    }

    /// The result, for a human reader.
    pub open spec fn text(self) -> Seq<char> {
        if self.introduces_errors() {
            "edit introduced "@ + decimal(
                (self.post_edit_error_count - self.pre_edit_error_count) as nat,
            ) + " new syntax error(s) ("@ + decimal(self.pre_edit_error_count as nat) + " → "@
                + decimal(self.post_edit_error_count as nat) + ")"@
        } else {
            "edit did not introduce syntax errors ("@ + decimal(self.post_edit_error_count as nat)
                + " error(s))"@
        }
    }

    /// Whether the edit introduced new syntax errors.
    pub fn has_new_errors(&self) -> (r: bool)
        ensures
            r == self.introduces_errors(),
            r == (self.post_edit_error_count > self.pre_edit_error_count),
    {
        self.post_edit_error_count > self.pre_edit_error_count
    }

    /// A description of the result for a human reader.
    pub fn description(&self) -> (r: String)
        ensures
            r@ == self.text(),
    {
        if self.has_new_errors() {
            let mut text = "edit introduced ".to_owned();
            push_decimal(
                &mut text,
                (self.post_edit_error_count - self.pre_edit_error_count) as u128,
            );
            text.append(" new syntax error(s) (");
            push_decimal(&mut text, self.pre_edit_error_count as u128);
            text.append(" → ");
            push_decimal(&mut text, self.post_edit_error_count as u128);
            text.append(")");
            text
        } else {
            let mut text = "edit did not introduce syntax errors (".to_owned();
            push_decimal(&mut text, self.post_edit_error_count as u128);
            text.append(" error(s))");
            text
        }
    }
}

/// What validating a buffer gives that had `pre_edit_error_count` syntax errors
/// before the edit.
pub open spec fn validation(
    pre_edit_error_count: usize,
    snapshot: BufferSnapshot,
) -> AstValidationResult {
    AstValidationResult { pre_edit_error_count, post_edit_error_count: snapshot.syntax_error_count }
}

/// The number of syntax errors in a buffer before an edit, to be handed to
/// [`validate_post_edit`] once the edit is applied.
pub fn capture_pre_edit_error_count(snapshot: &BufferSnapshot) -> (r: usize)
    ensures
        r == snapshot.syntax_error_count,
{
    snapshot.syntax_error_count
}

/// Validates a buffer's syntax after an edit has been applied in memory, before
/// the buffer is saved.
pub fn validate_post_edit(pre_edit_error_count: usize, snapshot: &BufferSnapshot) -> (r:
    AstValidationResult)
    ensures
        r == validation(pre_edit_error_count, *snapshot),
        r.pre_edit_error_count == pre_edit_error_count,
        r.post_edit_error_count == snapshot.syntax_error_count,
{
    AstValidationResult { pre_edit_error_count, post_edit_error_count: snapshot.syntax_error_count }
}

} // verus!
