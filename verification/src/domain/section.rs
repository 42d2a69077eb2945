use vstd::prelude::*;

use crate::domain::block::Block;

verus! {

/// Heading variant: ATX-style (# prefix) or Setext-style (underline with === or ---).
#[derive(Debug, Clone, Copy, PartialEq, Eq, Structural)]
pub enum HeadingVariant {
    Atx,
    Setext,
}

/// A heading-delimited container block.
#[derive(Debug, Clone)]
pub struct SectionBlock {
    pub block: Block,
    /// Heading level 1-6.
    pub level: u8,
    /// Heading title text (without # prefix).
    pub title: String,
    /// URL-safe title slug.
    pub slug: String,
    /// Canonical path e.g., "/architecture/parser".
    pub path: String,
    /// Disambiguates repeated sibling headings.
    pub ordinal: u32,
    /// ATX or Setext heading style.
    pub variant: HeadingVariant,
}

} // verus!
