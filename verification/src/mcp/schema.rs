//! Request types of the Model Context Protocol tools, one per tool, with
//! the defaults that a request may leave out.

use vstd::prelude::*;

use crate::ascii::model::AsciiMode;
use crate::domain::selectors::BlockSelector;
use crate::ops::edit::EditOp;
use crate::processing::normalize::NormalizeOptions;

verus! {

/// Request of the outline tool.
#[derive(Debug, Clone)]
pub struct ReadOutlineRequest {
    pub file_path: String,
    /// Deepest heading level listed (defaults to 6).
    pub max_depth: u8,
    /// Whether entries carry their canonical paths (defaults to false).
    pub include_paths: bool,
}

/// The heading depth an outline request lists when it names none: all six
/// levels.
pub fn default_max_depth() -> (r: u8)
    ensures
        r == 6,
{
    6
}

/// Request of the read-block tool.
#[derive(Debug, Clone)]
pub struct ReadBlockRequest {
    pub file_path: String,
    pub selector: Option<BlockSelector>,
    /// View mode: "block", "tree", "text", "children", "by_type".
    pub view: String,
    pub block_type: Option<String>,
    pub depth: Option<i32>,
    pub include_text: Option<bool>,
    pub limit: Option<usize>,
    pub offset: Option<usize>,
}

/// The view a read-block request asks for when it names none.
pub fn default_view() -> (r: String)
    ensures
        r@ == "block"@,
{
    String::from_str("block")
}

/// Request of the search tool.
#[derive(Debug, Clone)]
pub struct SearchRequest {
    pub file_path: String,
    pub query: String,
    pub selector: Option<BlockSelector>,
    pub case_sensitive: bool,
}

/// Request of the edit tool.
#[derive(Debug, Clone)]
pub struct EditRequest {
    pub file_path: String,
    pub operations: Vec<EditOp>,
    pub dry_run: bool,
}

/// Request of the validate tool.
#[derive(Debug, Clone)]
pub struct ValidateRequest {
    pub file_path: String,
}

/// Request of the normalize tool.
#[derive(Debug, Clone)]
pub struct NormalizeRequest {
    pub file_path: String,
    pub options: Option<NormalizeOptions>,
    pub dry_run: bool,
}

/// Request of the ASCII art formatting tool.
#[derive(Debug, Clone)]
pub struct FormatAsciiRequest {
    pub file_path: String,
    pub mode: AsciiMode,
    pub dry_run: bool,
}

} // verus!
