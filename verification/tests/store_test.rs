use my_git::error::GitError;
use my_git::objects::object::{Object, ObjectType};
use my_git::objects::object_hash::ObjectHash;
use my_git::objects::store::Store;
use my_git::objects::tree::{Tree, TreeEntry};
use my_git::objects::tree_traversal::{TreeWalk, WalkStep};

#[test]
fn store_needs_a_git_dir() {
    assert!(matches!(
        Store::new("/repo".to_string(), "/".to_string(), false),
        Err(GitError::NoGitDir)
    ));
    let store = Store::new("/repo".to_string(), "/elsewhere".to_string(), true).unwrap();
    assert_eq!(store.repo_dir(), "/repo");
    assert_eq!(store.objects_dir(), "/repo/.git/objects");
    let store = Store::new(".".to_string(), "/home/u".to_string(), true).unwrap();
    assert_eq!(store.repo_dir(), "/home/u/.");
    let store = Store::new("repo".to_string(), "/".to_string(), true).unwrap();
    assert_eq!(store.repo_dir(), "/repo");
}

#[test]
fn object_paths() {
    let store = Store::new("/repo/".to_string(), "/".to_string(), true).unwrap();
    assert_eq!(
        store.path_for_object("95d09f2b10159347eece71399a7e2e907ea3df4f"),
        "/repo/.git/objects/95/d09f2b10159347eece71399a7e2e907ea3df4f"
    );
    let store = Store::new(String::new(), "/work".to_string(), true).unwrap();
    assert_eq!(store.path_for_object("abcd"), "/work/.git/objects/ab/cd");
}

#[test]
fn written_objects_load_back() {
    let mut stored = Vec::new();
    let h = ObjectHash::build(b"hello world", &mut stored, ObjectType::Blob, 11).unwrap();
    assert_eq!(h.hash, "95d09f2b10159347eece71399a7e2e907ea3df4f");
    assert_eq!(Store::decode_object(&stored).unwrap(), b"blob 11\0hello world".to_vec());
    let obj = Store::load_object(&stored).unwrap();
    assert_eq!(obj.content(), b"hello world".to_vec());
    assert_eq!(obj.size(), 11);
    assert!(matches!(Store::decode_object(b"not zlib"), Err(GitError::DecompressionFailed)));
    assert!(matches!(Store::try_load_object(b"not zlib"), Some(Err(GitError::DecompressionFailed))));
}

fn stored_tree(entries: Vec<TreeEntry>) -> (String, Vec<u8>) {
    let bytes = Tree { entries }.to_bytes();
    let mut stored = Vec::new();
    let h = ObjectHash::build(&bytes, &mut stored, ObjectType::Tree, bytes.len()).unwrap();
    (h.hash, stored)
}

fn entry(mode: u32, name: &str, hash: &str) -> TreeEntry {
    TreeEntry { mode, filename: name.to_string(), hash: hash.to_string(), size: 0 }
}

#[test]
fn walk_expands_subtrees_in_place() {
    let blob = "95d09f2b10159347eece71399a7e2e907ea3df4f";
    let (inner_hash, inner) = stored_tree(vec![entry(100644, "x", blob), entry(100755, "y", blob)]);
    let (root_hash, root) = stored_tree(vec![
        entry(100644, "a", blob),
        entry(40000, "sub", &inner_hash),
        entry(120000, "z", blob),
    ]);
    let mut walk = TreeWalk::new();
    let mut step = walk.visit(Store::load_object(&root).unwrap()).unwrap();
    let mut loads = Vec::new();
    let tree = loop {
        match step {
            WalkStep::Load(h) => {
                loads.push(h.clone());
                let raw = if h == inner_hash { &inner } else { &root };
                step = walk.visit(Store::load_object(raw).unwrap()).unwrap();
            }
            WalkStep::Done(t) => break t,
            WalkStep::UnknownMode(m) => panic!("unknown mode {}", m),
        }
    };
    assert_eq!(loads, vec![inner_hash]);
    let names: Vec<&str> = tree.entries.iter().map(|e| e.filename.as_str()).collect();
    assert_eq!(names, vec!["a", "x", "y", "z"]);
    let _ = root_hash;
}

#[test]
fn walk_refuses_a_blob_and_reports_unknown_modes() {
    let mut stored = Vec::new();
    ObjectHash::build(b"hi", &mut stored, ObjectType::Blob, 2).unwrap();
    let mut walk = TreeWalk::new();
    assert!(matches!(walk.visit(Store::load_object(&stored).unwrap()), Err(GitError::NotATree)));
    let (_, bad) = stored_tree(vec![entry(7, "q", "95d09f2b10159347eece71399a7e2e907ea3df4f")]);
    let mut walk = TreeWalk::new();
    assert!(matches!(walk.visit(Store::load_object(&bad).unwrap()), Ok(WalkStep::UnknownMode(7))));
    let mut walk = TreeWalk::new();
    let empty = Object::Tree(Tree { entries: Vec::new() });
    match walk.visit(empty) {
        Ok(WalkStep::Done(t)) => assert!(t.entries.is_empty()),
        _ => panic!("expected an empty tree"),
    }
}
