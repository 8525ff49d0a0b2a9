use my_git::commands::cat_file::{output, CatFileArgs};
use my_git::error::GitError;
use my_git::objects::object::ObjectType;
use my_git::objects::object_hash::ObjectHash;
use my_git::objects::store::Store;

/// What `hash-object -w` stores for the file holding "hello world", and its hash.
fn stored_hello_world() -> (String, Vec<u8>) {
    let mut stored = Vec::new();
    let h = ObjectHash::build(b"hello world", &mut stored, ObjectType::Blob, 11).unwrap();
    (h.hash, stored)
}

/// The line `cat-file` prints.
fn cat_file(stored: &[u8], args: &CatFileArgs) -> Result<String, GitError> {
    let object = Store::load_object(stored)?;
    output(&object, args).unwrap().map(|text| format!("{}\n", text))
}

fn args(hash: &str, t: bool, s: bool, p: bool) -> CatFileArgs {
    CatFileArgs { obj_hash: hash.to_string(), show_type: t, show_size: s, show_content: p }
}

#[test]
fn test_cat_file_missing_required_arg() {
    let (hash, stored) = stored_hello_world();
    assert!(cat_file(&stored, &args(&hash, false, false, false)).is_err());
}

#[test]
fn test_cat_file_print_type() {
    let (hash, stored) = stored_hello_world();
    assert_eq!(cat_file(&stored, &args(&hash, true, false, false)).unwrap(), "blob\n".to_string());
}

#[test]
fn test_cat_file_print_size() {
    let (hash, stored) = stored_hello_world();
    assert_eq!(cat_file(&stored, &args(&hash, false, true, false)).unwrap(), "11\n".to_string());
}

#[test]
fn test_cat_file_print_content() {
    let (hash, stored) = stored_hello_world();
    assert_eq!(
        cat_file(&stored, &args(&hash, false, false, true)).unwrap(),
        "hello world\n".to_string()
    );
}
