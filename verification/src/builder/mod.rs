pub mod tree_builder;
