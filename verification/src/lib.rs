//! Guards that judge an automated edit before it is accepted.
//!
//! Two signs of a corrupted edit are looked for: a scope out of proportion to
//! the task that was asked for ([`scope_anomaly`]), and syntax errors that were
//! not there before the edit ([`ast_validation`]).

pub mod ast_validation;
pub mod diff;
pub mod laws;
pub mod number;
pub mod plan;
pub mod plan_laws;
pub mod ratio;
pub mod scope_anomaly;
pub mod text;
pub mod text_laws;
pub mod tool_results;
pub mod unicode;

pub use crate::ast_validation::{
    capture_pre_edit_error_count, validate_post_edit, AstValidationResult, BufferSnapshot,
};
pub use crate::diff::count_diff_lines;
pub use crate::ratio::Ratio;
pub use crate::scope_anomaly::{
    detect_scope_anomaly, ActualEditScope, ExpectedEditScope, ScopeAnomalyResult,
};
