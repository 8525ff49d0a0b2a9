//! `hash-object`: hashes a file, and with `-w` stores it.
use crate::commands::CliConfig;
use crate::error::{ErrorKind, GitError};
use crate::objects::object::ObjectType;
use crate::objects::text::{join_path, path_join};
use vstd::prelude::*;

verus! {

/// What `hash-object` is asked for.
pub struct HashObjectArgs {
    pub obj_type: ObjectType,
    pub write: bool,
    /// File to hash (or stdin if not specified)
    pub file: Option<String>,
}

/// The path of the file to hash: the file given, below the working
/// directory; reading standard input is not supported.
pub fn file_path(config: &CliConfig, args: &HashObjectArgs) -> (res: Result<String, GitError>)
    ensures
        match args.file {
            Some(f) => res matches Ok(p) && p@ == path_join(config.work_dir@, f@),
            None => res matches Err(e) && e@ == ErrorKind::NoFileSpecified,
        },
{
    match &args.file {
        Some(f) => Ok(join_path(config.work_dir.as_str(), f.as_str())),
        None => Err(GitError::NoFileSpecified),
    }
}

} // verus!
