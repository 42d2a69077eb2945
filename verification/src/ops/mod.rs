pub mod diff;
pub mod edit;
pub mod order;
pub mod read;
pub mod resolve;
pub mod search;
pub mod semantic;
pub mod traverse;
pub mod write;
