use vstd::prelude::*;

use crate::domain::block_node::opt_view;
use crate::error::{diag_views, DiagModel, Diagnostic};
use crate::ops::diff::{DiffModel, DiffSummary};

verus! {

/// Full response for write operations.
#[derive(Debug, Clone)]
pub struct WriteResponse {
    pub success: bool,
    pub changed: bool,
    pub diagnostics: Vec<Diagnostic>,
    pub diff_summary: Option<DiffSummary>,
    pub content: Option<String>,
}

/// Error response, returned when success is false.
#[derive(Debug, Clone)]
pub struct ErrorResponse {
    pub error_code: String,
    pub message: String,
    pub diagnostic: Option<Diagnostic>,
    pub suggested_action: Option<String>,
}

/// The mathematical content of a [`WriteResponse`].
pub struct WriteModel {
    pub success: bool,
    pub changed: bool,
    pub diagnostics: Seq<DiagModel>,
    pub diff_summary: Option<DiffModel>,
    pub content: Option<Seq<char>>,
}

impl View for WriteResponse {
    type V = WriteModel;

    open spec fn view(&self) -> WriteModel {
        WriteModel {
            success: self.success,
            changed: self.changed,
            diagnostics: diag_views(self.diagnostics@),
            diff_summary: match self.diff_summary {
                Some(d) => Some(d@),
                None => None,
            },
            content: opt_view(self.content),
        }
    }
}

} // verus!
