//! The request types of the Model Context Protocol tools and the server
//! state that serves them.

pub mod schema;
pub mod tools;
