pub mod utils;
pub mod numbers;
pub mod text;
pub mod codec;
pub mod blob;
pub mod object;
pub mod tree;
pub mod object_hash;
pub mod store;
pub mod tree_traversal;
