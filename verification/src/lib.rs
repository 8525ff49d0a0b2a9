//! A small git object store: hashing, compressing, parsing and listing
//! git blobs and trees, and finding the repository a command works in.
pub mod commands;
pub mod error;
pub mod objects;
