pub mod ascii_service;
pub mod block_service;
pub mod normalize_service;
pub mod parse_service;
pub mod validate_service;
