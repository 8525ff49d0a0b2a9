use my_git::commands::cat_file::{output, CatFileArgs};
use my_git::error::GitError;
use my_git::objects::numbers::IntErrorKind;
use my_git::objects::object::{Object, ObjectType};
use my_git::objects::tree::{Tree, TreeEntry};

const HASH_A: &str = "95d09f2b10159347eece71399a7e2e907ea3df4f";

#[test]
fn object_type_names() {
    assert_eq!(ObjectType::Blob.name(), "blob");
    assert_eq!(ObjectType::Tree.name(), "tree");
    assert_eq!(ObjectType::Commit.name(), "commit");
    assert_eq!(ObjectType::from_name("blob").unwrap(), ObjectType::Blob);
    assert_eq!(ObjectType::from_name("tree").unwrap(), ObjectType::Tree);
    assert_eq!(ObjectType::from_name("commit").unwrap(), ObjectType::Commit);
    match ObjectType::from_name("Blob") {
        Err(GitError::UnknownObjectType(s)) => assert_eq!(s, "Blob"),
        _ => panic!("expected an unknown type"),
    }
    for t in [ObjectType::Blob, ObjectType::Tree, ObjectType::Commit] {
        assert_eq!(ObjectType::from_name(&t.name()).unwrap(), t);
    }
}

#[test]
fn build_blob() {
    let obj = Object::build(b"blob 11\0hello world".to_vec()).unwrap();
    assert_eq!(obj.obj_type(), ObjectType::Blob);
    assert_eq!(obj.size(), 11);
    assert_eq!(obj.content(), b"hello world".to_vec());
    match obj {
        Object::Blob(b) => {
            assert_eq!(b.obj_type, ObjectType::Blob);
            assert_eq!(b.size, 11);
        }
        _ => panic!("expected a blob"),
    }
}

#[test]
fn build_blob_keeps_declared_size_and_trims_the_type() {
    let obj = Object::build(b"\tblob\n +42\0abc".to_vec()).unwrap();
    assert_eq!(obj.size(), 42);
    assert_eq!(obj.content(), b"abc".to_vec());
    match Object::build(b" blob 3\0abc".to_vec()) {
        Err(GitError::UnknownObjectType(s)) => assert_eq!(s, ""),
        _ => panic!("the type ends at the first space"),
    }
}

#[test]
fn build_errors() {
    assert!(matches!(Object::build(b"blob 11".to_vec()), Err(GitError::NoNullByte)));
    assert!(matches!(Object::build(b"blob\xff 1\0a".to_vec()), Err(GitError::HeaderNotUtf8)));
    assert!(matches!(Object::build(b"blob11\0a".to_vec()), Err(GitError::MalformedHeader)));
    let size_error = |header: &[u8]| {
        let mut buf = header.to_vec();
        buf.extend(b"\0a");
        match Object::build(buf) {
            Err(GitError::InvalidSize(k)) => k,
            _ => panic!("expected a size error"),
        }
    };
    assert_eq!(size_error(b"blob x"), IntErrorKind::InvalidDigit);
    assert_eq!(size_error(b"blob -1"), IntErrorKind::InvalidDigit);
    assert_eq!(size_error(b"blob +"), IntErrorKind::InvalidDigit);
    assert_eq!(size_error(b"blob "), IntErrorKind::Empty);
    assert_eq!(size_error(b"blob 99999999999999999999"), IntErrorKind::PosOverflow);
    assert_eq!(size_error(b"blob 99999999999999999999x"), IntErrorKind::PosOverflow);
    assert_eq!(size_error(b"blob 9x9999999999999999999"), IntErrorKind::InvalidDigit);
    assert_eq!(size_error(b"blob 1 2"), IntErrorKind::InvalidDigit);
    assert!(matches!(Object::build(b"commit 1\0a".to_vec()), Err(GitError::CommitUnsupported)));
    match Object::build(b"tag 1\0a".to_vec()) {
        Err(GitError::UnknownObjectType(s)) => assert_eq!(s, "tag"),
        _ => panic!("expected an unknown type"),
    }
}

fn tree_bytes() -> Vec<u8> {
    let tree = Tree {
        entries: vec![
            TreeEntry { mode: 100644, filename: "a.txt".to_string(), hash: HASH_A.to_string(), size: 33 },
            TreeEntry { mode: 40000, filename: "d".to_string(), hash: HASH_A.to_string(), size: 28 },
        ],
    };
    let mut bytes = b"tree 61\0".to_vec();
    bytes.extend(tree.to_bytes());
    bytes
}

#[test]
fn build_tree() {
    let obj = Object::build(tree_bytes()).unwrap();
    assert_eq!(obj.obj_type(), ObjectType::Tree);
    assert_eq!(obj.size(), 61);
    let content = String::from_utf8(obj.content()).unwrap();
    assert_eq!(content, format!("100644 blob {}\ta.txt\n040000 tree {}\td", HASH_A, HASH_A));
}

#[test]
fn build_checked_spots_panics() {
    assert!(Object::build_checked(b"tree 1\0100644 a").is_none());
    assert!(Object::build_checked(b"tree 1\0").unwrap().is_ok());
}

#[test]
fn cat_file_output() {
    let obj = Object::build(b"blob 11\0hello world".to_vec()).unwrap();
    let args = |t, s, p| CatFileArgs {
        obj_hash: HASH_A.to_string(),
        show_type: t,
        show_size: s,
        show_content: p,
    };
    assert_eq!(output(&obj, &args(false, true, false)).unwrap().unwrap(), "11");
    assert_eq!(output(&obj, &args(true, false, false)).unwrap().unwrap(), "blob");
    assert_eq!(output(&obj, &args(false, false, true)).unwrap().unwrap(), "hello world");
    assert_eq!(output(&obj, &args(true, true, true)).unwrap().unwrap(), "11");
    assert!(matches!(output(&obj, &args(false, false, false)), Some(Err(GitError::NoModeSpecified))));
    let bin = Object::build(b"blob 1\0\xff".to_vec()).unwrap();
    assert!(matches!(output(&bin, &args(false, false, true)), Some(Err(GitError::ContentNotUtf8))));
    let tree = Object::build(tree_bytes()).unwrap();
    assert_eq!(output(&tree, &args(true, false, false)).unwrap().unwrap(), "tree");
}

#[test]
fn tree_size_overflow_and_unknown_modes_are_spotted() {
    let t = Object::Tree(Tree {
        entries: vec![
            TreeEntry { mode: 1, filename: "x".to_string(), hash: HASH_A.to_string(), size: usize::MAX },
            TreeEntry { mode: 100644, filename: "y".to_string(), hash: HASH_A.to_string(), size: 1 },
        ],
    });
    assert!(t.checked_size().is_none());
    assert!(t.checked_content().is_none());
}
