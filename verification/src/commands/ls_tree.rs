//! `ls-tree`: lists the entries of a tree.
use crate::error::{ErrorKind, GitError};
use crate::objects::object::{Object, ObjectView};
use crate::objects::tree::{entry_views, TreeEntry};
use vstd::prelude::*;

verus! {

/// What `ls-tree` is asked for.
pub struct LsTreeArgs {
    pub obj_hash: String,
    pub recursive: bool,
}

/// The entries that `ls-tree` lists: those of a tree; any other object is an error.
pub fn tree_entries(object: &Object) -> (res: Result<&Vec<TreeEntry>, GitError>)
    ensures
        match object@ {
            ObjectView::Tree { entries } => res matches Ok(v) && entry_views(v@) == entries,
            _ => res matches Err(e) && e@ == ErrorKind::ExpectedTree,
        },
{
    match object {
        Object::Tree(tree) => Ok(&tree.entries),
        _ => Err(GitError::ExpectedTree),
    }
}

} // verus!
