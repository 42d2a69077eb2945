//! The server state behind the Model Context Protocol tools, and the choice
//! of read that a read-block request stands for.

use vstd::prelude::*;

use std::sync::Arc;

use crate::domain::policy::{is_default_policy, FilesystemPolicy};
use crate::domain::selectors::{BlockSelector, SelectorModel};
use crate::mcp::schema::ReadBlockRequest;
use crate::services::ascii_service::AsciiService;
use crate::services::block_service::BlockService;
use crate::text::{chars_eq, chars_of};

verus! {

/// The server handler: the services behind shared pointers, so that the
/// handler can be cloned for each request.
#[derive(Clone)]
pub struct MdtoolServer {
    pub block_service: Arc<BlockService>,
    pub ascii_service: Arc<AsciiService>,
}

impl MdtoolServer {
    /// A server whose services both run under the default policy.
    pub fn new() -> (r: Self)
        ensures
            is_default_policy(r.block_service.policy),
            is_default_policy(r.ascii_service.policy),
    {
        let block_service = Arc::new(BlockService::new(FilesystemPolicy::default()));
        let ascii_service = Arc::new(AsciiService::new(FilesystemPolicy::default()));
        MdtoolServer { block_service, ascii_service }
    }
}

/// The read that a read-block request stands for, with its arguments.
#[derive(Debug)]
pub enum ReadBlockPlan {
    /// Id, type, line range and optionally the text of the block.
    Block { selector: BlockSelector, include_text: bool },
    /// The source text of the block.
    Text { selector: BlockSelector },
    /// The block's subtree down to `depth` levels.
    Tree { selector: BlockSelector, depth: i32, include_text: bool },
    /// The ordered children of the block.
    Children { selector: BlockSelector },
    /// All blocks of a type.
    ByType { block_type: String },
}

/// The selector of a request, or the empty one (the root) when it has none.
pub open spec fn selector_or_root(s: Option<BlockSelector>) -> SelectorModel {
    match s {
        Some(x) => x@,
        None => SelectorModel::empty(),
    }
}

/// Choose the read for a read-block request by its view: "text", "tree",
/// "children" and "by_type" name their reads, and any other view reads the
/// block itself. A missing selector selects the root, a missing
/// `include_text` means true, a missing depth the whole subtree (-1), and a
/// missing block type fences.
pub fn plan_read_block(req: ReadBlockRequest) -> (r: ReadBlockPlan)
    ensures
        ({
            let sel = selector_or_root(req.selector);
            let with_text = match req.include_text {
                Some(b) => b,
                None => true,
            };
            if req.view@ == "text"@ {
                r matches ReadBlockPlan::Text { selector } && selector@ == sel
            } else if req.view@ == "tree"@ {
                &&& r matches ReadBlockPlan::Tree { selector, depth, include_text }
                &&& selector@ == sel
                &&& depth == (match req.depth {
                    Some(d) => d,
                    None => -1i32,
                })
                &&& include_text == with_text
            } else if req.view@ == "children"@ {
                r matches ReadBlockPlan::Children { selector } && selector@ == sel
            } else if req.view@ == "by_type"@ {
                r matches ReadBlockPlan::ByType { block_type } && block_type@ == (match req.block_type {
                    Some(t) => t@,
                    None => "fence"@,
                })
            } else {
                r matches ReadBlockPlan::Block { selector, include_text } && selector@ == sel && include_text
                    == with_text
            }
        }),
{
    let view = chars_of(req.view.as_str());
    let selector = match req.selector {
        Some(s) => s,
        None => BlockSelector::default(),
    };
    let include_text = match req.include_text {
        Some(b) => b,
        None => true,
    };
    if chars_eq(view.as_slice(), chars_of("text").as_slice()) {
        ReadBlockPlan::Text { selector }
    } else if chars_eq(view.as_slice(), chars_of("tree").as_slice()) {
        let depth = match req.depth {
            Some(d) => d,
            None => -1,
        };
        ReadBlockPlan::Tree { selector, depth, include_text }
    } else if chars_eq(view.as_slice(), chars_of("children").as_slice()) {
        ReadBlockPlan::Children { selector }
    } else if chars_eq(view.as_slice(), chars_of("by_type").as_slice()) {
        let block_type = match req.block_type {
            Some(t) => t,
            None => String::from_str("fence"),
        };
        ReadBlockPlan::ByType { block_type }
    } else {
        ReadBlockPlan::Block { selector, include_text }
    }
}

} // verus!
