use vstd::prelude::*;

use crate::error::{diag_views, DiagModel, Diagnostic};
use crate::primitives::BlockId;
use crate::text::string_views;

verus! {

/// How far ASCII art formatting goes.
#[derive(Debug, Clone, Copy, PartialEq, Eq, Structural)]
pub enum AsciiMode {
    FormatOnly,
    RepairSafe,
    RepairAggressive,
}

impl Default for AsciiMode {
    fn default() -> (r: Self)
        ensures
            r == AsciiMode::FormatOnly,
    {
        AsciiMode::FormatOnly
    }
}

/// An ASCII art fence block: its lines and their common indentation.
#[derive(Debug, Clone)]
pub struct AsciiBlock {
    pub block_id: BlockId,
    pub info_string: String,
    pub indent: usize,
    pub lines: Vec<String>,
}

/// The result of formatting an ASCII art block.
#[derive(Debug, Clone)]
pub struct AsciiEdit {
    pub block_id: BlockId,
    pub changed: bool,
    pub before: Vec<String>,
    pub after: Vec<String>,
    pub diagnostics: Vec<Diagnostic>,
}

/// The mathematical content of an [`AsciiBlock`].
pub struct AsciiBlockModel {
    pub block_id: BlockId,
    pub info_string: Seq<char>,
    pub indent: usize,
    pub lines: Seq<Seq<char>>,
}

/// The mathematical content of an [`AsciiEdit`].
pub struct AsciiEditModel {
    pub block_id: BlockId,
    pub changed: bool,
    pub before: Seq<Seq<char>>,
    pub after: Seq<Seq<char>>,
    pub diagnostics: Seq<DiagModel>,
}

impl View for AsciiBlock {
    type V = AsciiBlockModel;

    open spec fn view(&self) -> AsciiBlockModel {
        AsciiBlockModel {
            block_id: self.block_id,
            info_string: self.info_string@,
            indent: self.indent,
            lines: string_views(self.lines@),
        }
    }
}

impl View for AsciiEdit {
    type V = AsciiEditModel;

    open spec fn view(&self) -> AsciiEditModel {
        AsciiEditModel {
            block_id: self.block_id,
            changed: self.changed,
            before: string_views(self.before@),
            after: string_views(self.after@),
            diagnostics: diag_views(self.diagnostics@),
        }
    }
}

} // verus!
