pub mod detect;
pub mod format;
pub mod model;
