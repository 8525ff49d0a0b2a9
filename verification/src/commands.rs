//! What the commands decide, apart from the file system work they do.
pub mod cat_file;
pub mod hash_object;
pub mod ls_tree;

use vstd::prelude::*;

verus! {

/// The directories a command works in.
pub struct CliConfig {
    pub work_dir: String,
    /// The directory that holds the `.git` directory.
    pub git_dir: String,
}

impl CliConfig {
    /// The configuration for a working directory and the repository
    /// directory found for it (see [`search_step`]).
    pub fn build(work_dir: String, git_dir: String) -> (res: CliConfig)
        ensures
            res.work_dir@ == work_dir@,
            res.git_dir@ == git_dir@,
    {
        CliConfig { work_dir, git_dir }
    }
}

/// A directory path as `fs::canonicalize` gives it: absolute, with no empty
/// and no `.` component, and no trailing `/` unless it is the root.
pub open spec fn is_canonical_dir(p: Seq<char>) -> bool {
    &&& p.len() > 0
    &&& p[0] == '/'
    &&& p.len() > 1 ==> p.last() != '/'
    &&& forall|i: int| 0 <= i < p.len() - 1 ==> !(#[trigger] p[i] == '/' && p[i + 1] == '/')
    &&& forall|i: int|
        0 <= i < p.len() && #[trigger] p[i] == '.' ==> !((i == 0 || p[i - 1] == '/') && (i + 1
            == p.len() || p[i + 1] == '/'))
}

/// `i` is the position of the last `/` in `p`.
pub open spec fn is_last_slash(p: Seq<char>, i: int) -> bool {
    0 <= i < p.len() && p[i] == '/' && forall|j: int| i < j < p.len() ==> p[j] != '/'
}

/// The parent of a canonical directory (as `Path::parent`): everything before
/// its last `/`, or the root; the root has none.
pub open spec fn parent_dir(p: Seq<char>) -> Option<Seq<char>> {
    if p.len() <= 1 {
        None
    } else {
        let k = choose|k: int| is_last_slash(p, k);
        if k == 0 {
            Some(seq!['/'])
        } else {
            Some(p.take(k))
        }
    }
}

/// One step of the search for the repository directory.
pub enum GitDirSearch {
    /// This directory holds `.git`.
    Found(String),
    /// Look in this directory next.
    Ascend(String),
    /// The root was reached without finding `.git`.
    NotFound,
}

/// Decides the search for the repository at directory `dir`, where
/// `has_git` tells whether `dir/.git` exists: the directory itself when it
/// holds `.git`, else its parent, else nothing is found. The parent of a
/// canonical directory is canonical and shorter, so the search ends.
pub fn search_step(dir: &str, has_git: bool) -> (res: GitDirSearch)
    requires
        is_canonical_dir(dir@),
    ensures
        has_git ==> (res matches GitDirSearch::Found(d) && d@ == dir@),
        !has_git ==> match parent_dir(dir@) {
            Some(p) => res matches GitDirSearch::Ascend(d) && d@ == p && is_canonical_dir(p)
                && p.len() < dir@.len(),
            None => res matches GitDirSearch::NotFound,
        },
{
    if has_git {
        return GitDirSearch::Found(dir.to_owned());
    }
    let n = dir.unicode_len();
    if n <= 1 {
        return GitDirSearch::NotFound;
    }
    let mut k: usize = n - 1;
    while dir.get_char(k) != '/'
        invariant
            n == dir@.len(),
            0 <= k < n,
            dir@[0] == '/',
            forall|j: int| k < j < n ==> dir@[j] != '/',
        decreases k,
    {
        k = k - 1;
    }
    proof {
        let c = choose|c: int| is_last_slash(dir@, c);
        assert(is_last_slash(dir@, k as int));
        if c < k {
            assert(dir@[k as int] != '/');
        } else if (k as int) < c {
            assert(dir@[c] != '/');
        }
    }
    if k == 0 {
        let root = "/";
        proof {
            reveal_strlit("/");
        }
        GitDirSearch::Ascend(root.to_owned())
    } else {
        let p = dir.substring_char(0, k);
        proof {
            let q = dir@.take(k as int);
            assert(p@ =~= q);
            assert(q.last() != '/') by {
                assert(!(dir@[k - 1] == '/' && dir@[k as int] == '/'));
            }
            assert forall|i: int| 0 <= i < q.len() - 1 implies !(#[trigger] q[i] == '/' && q[i
                + 1] == '/') by {
                assert(!(dir@[i] == '/' && dir@[i + 1] == '/'));
            }
            assert forall|i: int| 0 <= i < q.len() && #[trigger] q[i] == '.' implies !((i == 0 || q[i
                - 1] == '/') && (i + 1 == q.len() || q[i + 1] == '/')) by {
                assert(dir@[i] == '.');
            }
        }
        GitDirSearch::Ascend(p.to_owned())
    }
}

/// Tells whether a directory path is canonical (see [`is_canonical_dir`]).
pub fn is_canonical(dir: &str) -> (res: bool)
    ensures
        res == is_canonical_dir(dir@),
{
    let n = dir.unicode_len();
    if n == 0 || dir.get_char(0) != '/' {
        return false;
    }
    if n > 1 && dir.get_char(n - 1) == '/' {
        return false;
    }
    let mut i: usize = 0;
    while i < n
        invariant
            n == dir@.len(),
            i <= n,
            n > 0,
            dir@[0] == '/',
            n > 1 ==> dir@.last() != '/',
            forall|j: int| 0 <= j < i && j < n - 1 ==> !(#[trigger] dir@[j] == '/' && dir@[j + 1] == '/'),
            forall|j: int|
                0 <= j < i && #[trigger] dir@[j] == '.' ==> !((j == 0 || dir@[j - 1] == '/') && (j + 1
                    == n || dir@[j + 1] == '/')),
        decreases n - i,
    {
        let c = dir.get_char(i);
        if c == '/' && i + 1 < n && dir.get_char(i + 1) == '/' {
            return false;
        }
        if c == '.' && (i == 0 || dir.get_char(i - 1) == '/') && (i + 1 == n || dir.get_char(i + 1) == '/') {
            return false;
        }
        i = i + 1;
    }
    true
}

/// Finds the last `/` of `p`, looking from position `j` down.
proof fn lemma_last_slash_exists(p: Seq<char>, j: int) -> (k: int)
    requires
        p.len() > 0,
        p[0] == '/',
        0 <= j < p.len(),
        forall|i: int| j < i < p.len() ==> p[i] != '/',
    ensures
        is_last_slash(p, k),
    decreases j,
{
    if p[j] == '/' {
        j
    } else {
        lemma_last_slash_exists(p, j - 1)
    }
}

/// The next directory of the search is the parent: a canonical directory
/// other than the root is its parent, a `/` unless the parent is the root,
/// and a last component that is not empty and holds no `/` (from `/a/b/c`
/// the next is `/a/b`, from `/a` it is `/`); the root has no parent.
pub proof fn law_parent_dir(p: Seq<char>)
    requires
        is_canonical_dir(p),
    ensures
        p.len() == 1 ==> parent_dir(p) is None,
        p.len() > 1 ==> (parent_dir(p) matches Some(q) && ({
            let last = if q == seq!['/'] {
                p.skip(1)
            } else {
                p.skip((q.len() + 1) as int)
            };
            &&& last.len() > 0
            &&& forall|i: int| 0 <= i < last.len() ==> last[i] != '/'
            &&& p == (if q == seq!['/'] {
                seq!['/'] + last
            } else {
                q + seq!['/'] + last
            })
        })),
{
    if p.len() > 1 {
        let k0 = lemma_last_slash_exists(p, p.len() - 1);
        let k = choose|k: int| is_last_slash(p, k);
        assert(is_last_slash(p, k));
        if k < k0 {
            assert(p[k0] != '/');
        } else if k0 < k {
            assert(p[k] != '/');
        }
        assert(k < p.len() - 1);
        if k == 0 {
            let last = p.skip(1);
            assert(p =~= seq!['/'] + last);
        } else {
            let q = p.take(k);
            assert(q != seq!['/']) by {
                if q == seq!['/'] {
                    assert(q.len() == k);
                    assert(seq!['/'].len() == 1);
                    assert(k == 1);
                    assert(!(p[0] == '/' && p[1] == '/'));
                }
            }
            let last = p.skip((q.len() + 1) as int);
            assert(p =~= q + seq!['/'] + last);
        }
    }
}

} // verus!
