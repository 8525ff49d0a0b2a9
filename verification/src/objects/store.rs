//! The git object store: where objects lie and how their stored bytes are
//! read back. The file system itself is reached by the caller; this module
//! decides paths and decodes what was read.
use crate::error::{ErrorKind, GitError, Outcome};
use crate::objects::codec::{zlib_decompress, zlib_decompressed};
use crate::objects::object::{
    law_blob_reads_back, object_outcome, object_result, Object, ObjectType, ObjectView,
};
use crate::objects::object_hash::{hash_result, hash_text, object_data, ObjectHash};
use crate::objects::text::{join_path, path_join};
use vstd::prelude::*;
use vstd::string::*;
use vstd::utf8::*;

verus! {


/// Encapsulates access to the git object store on the filesystem.
///
/// Owns all object I/O. Other structs should use Store to access
/// objects rather than interacting with the filesystem directly.
pub struct Store {
    repo_dir: String,
}

/// The path of the objects directory below a repository directory.
pub open spec fn objects_path() -> Seq<char> {
    seq!['.', 'g', 'i', 't', '/', 'o', 'b', 'j', 'e', 'c', 't', 's']
}

/// What loading an object from the bytes of its file comes to: the bytes are
/// decompressed, then built into an object.
pub open spec fn load_outcome(raw: Seq<u8>) -> Outcome<ObjectView> {
    match zlib_decompressed(raw) {
        None => Outcome::Fails(ErrorKind::DecompressionFailed),
        Some(data) => object_outcome(data),
    }
}

/// An absolute path: one that starts at the root.
pub open spec fn is_absolute(p: Seq<char>) -> bool {
    p.len() > 0 && p[0] == '/'
}

impl Store {
    /// The directory that holds the `.git` directory, as an absolute path.
    pub closed spec fn repo(&self) -> Seq<char> {
        self.repo_dir@
    }

    /// The repository path is absolute.
    #[verifier::type_invariant]
    spec fn repo_is_absolute(self) -> bool {
        is_absolute(self.repo_dir@)
    }

    /// Creates a new Store rooted at the directory containing the `.git`
    /// directory. `repo_dir` is taken relative to `cwd`, the absolute current
    /// directory (an absolute `repo_dir` stands as it is); `git_dir_exists`
    /// tells whether `repo_dir/.git` exists.
    pub fn new(repo_dir: String, cwd: String, git_dir_exists: bool) -> (res: Result<Self, GitError>)
        requires
            is_absolute(cwd@),
        ensures
            git_dir_exists ==> (res matches Ok(s) && s.repo() == path_join(cwd@, repo_dir@)
                && is_absolute(s.repo())),
            !git_dir_exists ==> (res matches Err(e) && e@ == ErrorKind::NoGitDir),
    {
        if !git_dir_exists {
            return Err(GitError::NoGitDir);
        }
        let dir = join_path(cwd.as_str(), repo_dir.as_str());
        Ok(Store { repo_dir: dir })
    }

    /// Absolute path to the root directory of the repository.
    pub fn repo_dir(&self) -> (res: &str)
        ensures
            res@ == self.repo(),
            is_absolute(res@),
    {
        proof {
            use_type_invariant(self);
        }
        self.repo_dir.as_str()
    }

    /// The directory of the object store: `.git/objects` below the repository.
    pub fn objects_dir(&self) -> (res: String)
        ensures
            res@ == path_join(self.repo(), objects_path()),
    {
        let sub = ".git/objects";
        proof {
            reveal_strlit(".git/objects");
            assert(sub@ =~= objects_path());
        }
        join_path(self.repo_dir.as_str(), sub)
    }

    /// Returns the path within the object store for the given object hash:
    /// the first two bytes of the hash name a directory, the rest the file.
    pub fn path_for_object(&self, obj_hash: &str) -> (res: String)
        requires
            is_char_boundary(obj_hash.spec_bytes(), 2),
        ensures
            res@ == path_join(
                path_join(path_join(self.repo(), objects_path()), decode_utf8(obj_hash.spec_bytes().take(2))),
                decode_utf8(obj_hash.spec_bytes().skip(2)),
            ),
    {
        let (prefix, suffix) = obj_hash.split_at(2);
        proof {
            assert(obj_hash.spec_bytes().subrange(0, 2) =~= obj_hash.spec_bytes().take(2));
            assert(obj_hash.spec_bytes().subrange(2, obj_hash.spec_bytes().len() as int)
                =~= obj_hash.spec_bytes().skip(2));
            encode_utf8_decode_utf8(prefix@);
            encode_utf8_decode_utf8(suffix@);
        }
        let dir = join_path(self.objects_dir().as_str(), prefix);
        join_path(dir.as_str(), suffix)
    }

    /// Decodes the bytes of an object file (zlib) into the object's data.
    pub fn decode_object(raw: &[u8]) -> (res: Result<Vec<u8>, GitError>)
        ensures
            match zlib_decompressed(raw@) {
                Some(data) => res matches Ok(v) && v@ == data,
                None => res matches Err(e) && e@ == ErrorKind::DecompressionFailed,
            },
    {
        match zlib_decompress(raw) {
            Some(data) => Ok(data),
            None => Err(GitError::DecompressionFailed),
        }
    }

    /// Loads an object from the bytes of its file.
    pub fn load_object(raw: &[u8]) -> (res: Result<Object, GitError>)
        requires
            !(load_outcome(raw@) is Panics),
        ensures
            object_result(res, load_outcome(raw@)),
    {
        let decoded_object = Self::decode_object(raw)?;
        Object::build(decoded_object)
    }

    /// Loads an object from the bytes of its file; `None` where loading it
    /// would panic.
    pub fn try_load_object(raw: &[u8]) -> (res: Option<Result<Object, GitError>>)
        ensures
            match res {
                None => load_outcome(raw@) is Panics,
                Some(r) => object_result(r, load_outcome(raw@)),
            },
    {
        let decoded_object = match Self::decode_object(raw) {
            Ok(d) => d,
            Err(e) => {
                return Some(Err(e));
            },
        };
        match Object::build_checked(decoded_object.as_slice()) {
            None => None,
            Some(_) => Some(Self::load_object(raw)),
        }
    }
}

/// What `hash-object -w` stores, `cat-file` reads back: when hashing a blob's
/// content succeeds, the bytes appended to the writer load as a blob with
/// that content and size, and the hash is the hash of what they decode to.
pub proof fn law_written_blob_loads_back(
    h: ObjectHash,
    before: Seq<u8>,
    after: Seq<u8>,
    size: usize,
    content: Seq<u8>,
)
    requires
        hash_result(Ok(h), before, after, ObjectType::Blob, size, content),
    ensures
        load_outcome(after.skip(before.len() as int)) == Outcome::Done(
            ObjectView::Blob { obj_type: ObjectType::Blob, content, size },
        ),
        zlib_decompressed(after.skip(before.len() as int)) matches Some(data) && h.hash@
            == hash_text(data),
{
    let data = object_data(ObjectType::Blob, size, content);
    let c = crate::objects::codec::zlib_compressed(data)->0;
    assert(after.skip(before.len() as int) =~= c);
    law_blob_reads_back(size as nat, content);
}

/// What `hash-object -w` stores decodes back, for every object type: when
/// hashing succeeds, the bytes appended to the writer decompress to the
/// header followed by the content, loading them builds what that data
/// builds, and the hash is the hash of that data.
pub proof fn law_written_object_decodes_back(
    h: ObjectHash,
    before: Seq<u8>,
    after: Seq<u8>,
    obj_type: ObjectType,
    size: usize,
    content: Seq<u8>,
)
    requires
        hash_result(Ok(h), before, after, obj_type, size, content),
    ensures
        zlib_decompressed(after.skip(before.len() as int)) == Some(
            object_data(obj_type, size, content),
        ),
        load_outcome(after.skip(before.len() as int)) == object_outcome(
            object_data(obj_type, size, content),
        ),
        h.hash@ == hash_text(object_data(obj_type, size, content)),
{
    let data = object_data(obj_type, size, content);
    let c = crate::objects::codec::zlib_compressed(data)->0;
    assert(after.skip(before.len() as int) =~= c);
}

/// What `hash-object -w -t tree` stores of a tree's stored form loads back as
/// that tree: its entries with their modes, filenames and hashes, whenever
/// the hashes are object hashes and the filenames hold no NUL.
pub proof fn law_written_tree_loads_back(
    h: ObjectHash,
    before: Seq<u8>,
    after: Seq<u8>,
    size: usize,
    es: Seq<crate::objects::tree::EntryView>,
)
    requires
        hash_result(Ok(h), before, after, ObjectType::Tree, size, crate::objects::tree::tree_bytes(es)),
        forall|i: int| 0 <= i < es.len() ==> crate::objects::tree::entry_readable(#[trigger] es[i]),
    ensures
        load_outcome(after.skip(before.len() as int)) == Outcome::Done(
            ObjectView::Tree {
                entries: es.map_values(
                    |e: crate::objects::tree::EntryView| crate::objects::tree::read_back(e),
                ),
            },
        ),
{
    law_written_object_decodes_back(h, before, after, ObjectType::Tree, size, crate::objects::tree::tree_bytes(es));
    crate::objects::object::law_tree_object_reads_back(size as nat, es);
}

} // verus!
