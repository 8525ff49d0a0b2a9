//! The errors of the library.
use crate::objects::numbers::IntErrorKind;
use vstd::prelude::*;

verus! {

/// Everything that can go wrong in the library.
#[derive(Debug, Clone)]
pub enum GitError {
    /// An object's data holds no NUL byte to end its header.
    NoNullByte,
    /// An object's header is not valid UTF-8.
    HeaderNotUtf8,
    /// An object's header holds no space between type and size.
    MalformedHeader,
    /// The type name is none of `blob`, `tree`, `commit`.
    UnknownObjectType(String),
    /// The size in a blob's header is not an unsigned number that fits a `usize`.
    InvalidSize(IntErrorKind),
    /// Commit objects cannot be loaded.
    CommitUnsupported,
    /// The mode of a tree entry is not an unsigned number that fits a `u32`.
    InvalidMode(IntErrorKind),
    /// The file name of a tree entry is not valid UTF-8.
    InvalidFilename,
    /// A mode number that names no kind of tree entry.
    UnknownMode(u32),
    /// The content held a different number of bytes than the declared size.
    SizeMismatch { read: usize, expected: usize },
    /// The compressor refused the data.
    CompressionFailed,
    /// The data is not a complete zlib stream.
    DecompressionFailed,
    /// The repository directory holds no `.git` directory.
    NoGitDir,
    /// A tree was expected while walking a tree, and another object came.
    NotATree,
    /// `ls-tree` was given an object that is not a tree.
    ExpectedTree,
    /// `cat-file -p` was asked for content that is not valid UTF-8.
    ContentNotUtf8,
    /// `cat-file` was given none of `-t`, `-s`, `-p`.
    NoModeSpecified,
    /// `hash-object` was given no file.
    NoFileSpecified,
}

/// The mathematical model of a [`GitError`]: the same variants, with text as characters.
pub enum ErrorKind {
    NoNullByte,
    HeaderNotUtf8,
    MalformedHeader,
    UnknownObjectType(Seq<char>),
    InvalidSize(IntErrorKind),
    CommitUnsupported,
    InvalidMode(IntErrorKind),
    InvalidFilename,
    UnknownMode(u32),
    SizeMismatch { read: usize, expected: usize },
    CompressionFailed,
    DecompressionFailed,
    NoGitDir,
    NotATree,
    ExpectedTree,
    ContentNotUtf8,
    NoModeSpecified,
    NoFileSpecified,
}

impl View for GitError {
    type V = ErrorKind;

    open spec fn view(&self) -> ErrorKind {
        match self {
            GitError::NoNullByte => ErrorKind::NoNullByte,
            GitError::HeaderNotUtf8 => ErrorKind::HeaderNotUtf8,
            GitError::MalformedHeader => ErrorKind::MalformedHeader,
            GitError::UnknownObjectType(s) => ErrorKind::UnknownObjectType(s@),
            GitError::InvalidSize(k) => ErrorKind::InvalidSize(*k),
            GitError::CommitUnsupported => ErrorKind::CommitUnsupported,
            GitError::InvalidMode(k) => ErrorKind::InvalidMode(*k),
            GitError::InvalidFilename => ErrorKind::InvalidFilename,
            GitError::UnknownMode(m) => ErrorKind::UnknownMode(*m),
            GitError::SizeMismatch { read, expected } => ErrorKind::SizeMismatch {
                read: *read,
                expected: *expected,
            },
            GitError::CompressionFailed => ErrorKind::CompressionFailed,
            GitError::DecompressionFailed => ErrorKind::DecompressionFailed,
            GitError::NoGitDir => ErrorKind::NoGitDir,
            GitError::NotATree => ErrorKind::NotATree,
            GitError::ExpectedTree => ErrorKind::ExpectedTree,
            GitError::ContentNotUtf8 => ErrorKind::ContentNotUtf8,
            GitError::NoModeSpecified => ErrorKind::NoModeSpecified,
            GitError::NoFileSpecified => ErrorKind::NoFileSpecified,
        }
    }
}

/// What a piece of logic comes to on an input: the input is outside what it
/// handles (it would panic: the functions that take such inputs require
/// otherwise, and their checking companions return `None`), or an error,
/// or a value.
pub enum Outcome<T> {
    Panics,
    Fails(ErrorKind),
    Done(T),
}

} // verus!
