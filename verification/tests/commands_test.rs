use my_git::commands::hash_object::{file_path, HashObjectArgs};
use my_git::commands::ls_tree::tree_entries;
use my_git::commands::{search_step, CliConfig, GitDirSearch};
use my_git::error::GitError;
use my_git::objects::object::{Object, ObjectType};

#[test]
fn search_walks_up_to_the_root() {
    match search_step("/a/b", true) {
        GitDirSearch::Found(d) => assert_eq!(d, "/a/b"),
        _ => panic!("expected found"),
    }
    match search_step("/a/b", false) {
        GitDirSearch::Ascend(d) => assert_eq!(d, "/a"),
        _ => panic!("expected ascend"),
    }
    match search_step("/a", false) {
        GitDirSearch::Ascend(d) => assert_eq!(d, "/"),
        _ => panic!("expected ascend"),
    }
    assert!(matches!(search_step("/", false), GitDirSearch::NotFound));
}

#[test]
fn config_and_file_paths() {
    let config = CliConfig::build("/work".to_string(), "/work".to_string());
    assert_eq!(config.work_dir, "/work");
    assert_eq!(config.git_dir, "/work");
    let args = HashObjectArgs { obj_type: ObjectType::Blob, write: false, file: Some("f.txt".to_string()) };
    assert_eq!(file_path(&config, &args).unwrap(), "/work/f.txt");
    let args = HashObjectArgs { obj_type: ObjectType::Blob, write: false, file: Some("/abs/f".to_string()) };
    assert_eq!(file_path(&config, &args).unwrap(), "/abs/f");
    let args = HashObjectArgs { obj_type: ObjectType::Blob, write: true, file: None };
    assert!(matches!(file_path(&config, &args), Err(GitError::NoFileSpecified)));
}

#[test]
fn ls_tree_needs_a_tree() {
    let blob = Object::build(b"blob 1\0a".to_vec()).unwrap();
    assert!(matches!(tree_entries(&blob), Err(GitError::ExpectedTree)));
    let tree = Object::build(b"tree 0\0".to_vec()).unwrap();
    assert_eq!(tree_entries(&tree).unwrap().len(), 0);
}
