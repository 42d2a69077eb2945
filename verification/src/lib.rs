pub mod ascii;
pub mod builder;
pub mod domain;
pub mod error;
pub mod infrastructure;
pub mod mcp;
pub mod ops;
pub mod primitives;
pub mod processing;
pub mod services;
pub mod text;
