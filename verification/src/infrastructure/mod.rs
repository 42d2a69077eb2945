pub mod markdown;
pub mod normalizer;
pub mod parser;
pub mod policy_guard;
