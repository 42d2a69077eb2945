pub mod block;
pub mod block_node;
pub mod container_blocks;
pub mod document;
pub mod leaf_blocks;
pub mod policy;
pub mod response;
pub mod section;
pub mod selectors;
