use vstd::prelude::*;

use crate::builder::tree_builder::{build_tree, buildable, built_from};
use crate::domain::document::DocumentBlock;
use crate::error::MdtoolError;

verus! {

/// Parsing of markdown texts into block trees.
#[derive(Debug, Clone, Copy)]
pub struct ParseService;

impl ParseService {
    /// The parsing service.
    pub fn new() -> (r: Self) {
        ParseService
    }

    /// The block tree of a markdown text.
    pub fn parse_text(&self, text: &str) -> (r: Result<DocumentBlock, MdtoolError>)
        ensures
            r is Ok <==> buildable(text@),
            r matches Ok(d) ==> built_from(text@, d@),
            r matches Err(e) ==> e is Parse,
    {
        build_tree(text)
    }
}

} // verus!
