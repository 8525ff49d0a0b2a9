use my_git::error::GitError;
use my_git::objects::numbers::IntErrorKind;
use my_git::objects::object::ObjectType;
use my_git::objects::tree::{Mode, Tree, TreeEntry, TreeParser};
use my_git::objects::utils::bytes_to_string;
use sha1::Digest;

#[test]
fn parse_single_tree_entry() {
    let hash = random_hash(None);
    let mut bytes = b"100644 file1.txt\0".to_vec();
    bytes.extend_from_slice(&hash);
    let parser = TreeParser::new(&bytes, None);
    let entries = parser.parse().unwrap();
    assert_eq!(entries.len(), 1);
    let entry = entries.get(0).unwrap();
    assert_eq!(entry.mode, 100644);
    assert_eq!(entry.filename, "file1.txt");
    assert_eq!(entry.hash, bytes_to_string(&hash));
    assert_eq!(entry.size, 37);
}

#[test]
fn parse_multiple_tree_entry() {
    let entries = build_tree_lines(3);
    let parser = TreeParser::new(&entries, None);
    let parsed_entries = parser.parse().unwrap();
    assert_eq!(parsed_entries.len(), 3);
    for i in 0..3 {
        let entry = parsed_entries.get(i).unwrap();
        let expected_hash = random_hash(Some(format!("{}", i)));
        assert_eq!(entry.mode, 100644);
        assert_eq!(entry.filename, format!("file{}.txt", i));
        assert_eq!(entry.hash, bytes_to_string(&expected_hash));
        assert_eq!(entry.size, 37);
    }
}

fn build_tree_lines(len: usize) -> Vec<u8> {
    let mut lines = Vec::new();
    for i in 0..len {
        let hash = random_hash(Some(format!("{}", i)));
        let mut line = format!("100644 file{}.txt\0", i).as_bytes().to_vec();
        line.extend_from_slice(&hash);
        lines.extend(line);
    }
    lines
}

fn random_hash(input: Option<String>) -> Vec<u8> {
    match input {
        Some(input) => sha1::Sha1::digest(input.as_bytes()).to_vec(),
        None => sha1::Sha1::digest(b"random_data").to_vec(),
    }
}

fn entry(mode: u32, filename: &str, hash: &str, size: usize) -> TreeEntry {
    TreeEntry { mode, filename: filename.to_string(), hash: hash.to_string(), size }
}

const HASH_A: &str = "95d09f2b10159347eece71399a7e2e907ea3df4f";
const HASH_B: &str = "e69de29bb2d1d6434b8b29ae775ad8c2e48c5391";

#[test]
fn to_bytes_then_parse_gives_the_entries_back() {
    let tree = Tree {
        entries: vec![
            entry(100644, "a file.txt", HASH_A, 38),
            entry(40000, "dir", HASH_B, 30),
        ],
    };
    let bytes = tree.to_bytes();
    let mut expected = b"100644 a file.txt\0".to_vec();
    expected.extend(my_git::objects::utils::string_to_bytes(HASH_A));
    expected.extend(b"40000 dir\0");
    expected.extend(my_git::objects::utils::string_to_bytes(HASH_B));
    assert_eq!(bytes, expected);
    let parsed = TreeParser::new(&bytes, None).parse().unwrap();
    assert_eq!(parsed.len(), 2);
    for (p, e) in parsed.iter().zip(tree.entries.iter()) {
        assert_eq!(p.mode, e.mode);
        assert_eq!(p.filename, e.filename);
        assert_eq!(p.hash, e.hash);
        assert_eq!(p.size, e.size);
    }
}

#[test]
fn parse_prefixes_filenames() {
    let mut bytes = b"100644 f\0".to_vec();
    bytes.extend(random_hash(None));
    let parsed = TreeParser::new(&bytes, Some("sub/dir".to_string())).parse().unwrap();
    assert_eq!(parsed[0].filename, "sub/dir/f");
    let parsed = TreeParser::new(&bytes, Some("sub/".to_string())).parse().unwrap();
    assert_eq!(parsed[0].filename, "sub/f");
    let parsed = TreeParser::new(&bytes, Some(String::new())).parse().unwrap();
    assert_eq!(parsed[0].filename, "f");
}

#[test]
fn parse_of_nothing_is_no_entries() {
    assert_eq!(TreeParser::new(&[], None).parse().unwrap().len(), 0);
}

#[test]
fn parse_errors() {
    let mut bad_mode = b"10x644 f\0".to_vec();
    bad_mode.extend(random_hash(None));
    assert!(matches!(
        TreeParser::new(&bad_mode, None).parse(),
        Err(GitError::InvalidMode(IntErrorKind::InvalidDigit))
    ));
    let mut big_mode = b"4294967296 f\0".to_vec();
    big_mode.extend(random_hash(None));
    assert!(matches!(
        TreeParser::new(&big_mode, None).parse(),
        Err(GitError::InvalidMode(IntErrorKind::PosOverflow))
    ));
    let mut no_mode = b" f\0".to_vec();
    no_mode.extend(random_hash(None));
    assert!(matches!(
        TreeParser::new(&no_mode, None).parse(),
        Err(GitError::InvalidMode(IntErrorKind::Empty))
    ));
    let mut bad_name = b"100644 \xff\0".to_vec();
    bad_name.extend(random_hash(None));
    assert!(matches!(TreeParser::new(&bad_name, None).parse(), Err(GitError::InvalidFilename)));
}

#[test]
fn parse_checked_reports_where_parsing_would_panic() {
    assert!(TreeParser::new(b"100644 f", None).parse_checked().is_none());
    assert!(TreeParser::new(b"100644\0f", None).parse_checked().is_none());
    assert!(TreeParser::new(b"100644 f\0short", None).parse_checked().is_none());
    let mut ok = b"+100644 f\0".to_vec();
    ok.extend(random_hash(None));
    let parsed = TreeParser::new(&ok, None).parse_checked().unwrap().unwrap();
    assert_eq!(parsed[0].mode, 100644);
    assert_eq!(parsed[0].size, 30);
}

#[test]
fn modes_and_their_object_types() {
    assert_eq!(Mode::from_u32(100644).unwrap(), Mode::RegularFile);
    assert_eq!(Mode::from_u32(100755).unwrap(), Mode::ExecutableFile);
    assert_eq!(Mode::from_u32(40000).unwrap(), Mode::Directory);
    assert_eq!(Mode::from_u32(120000).unwrap(), Mode::SymLink);
    assert_eq!(Mode::from_u32(160000).unwrap(), Mode::GitLink);
    assert!(matches!(Mode::from_u32(100600), Err(GitError::UnknownMode(100600))));
    assert_eq!(Mode::RegularFile.object_type(), ObjectType::Blob);
    assert_eq!(Mode::ExecutableFile.object_type(), ObjectType::Blob);
    assert_eq!(Mode::SymLink.object_type(), ObjectType::Blob);
    assert_eq!(Mode::Directory.object_type(), ObjectType::Tree);
    assert_eq!(Mode::GitLink.object_type(), ObjectType::Commit);
}

#[test]
fn entry_display_pads_the_mode() {
    let e = entry(40000, "dir", HASH_B, 30);
    assert_eq!(e.object_type(), ObjectType::Tree);
    assert_eq!(e.display(), format!("040000 tree {}\tdir", HASH_B));
    let e = entry(100644, "a.txt", HASH_A, 30);
    assert_eq!(e.display(), format!("100644 blob {}\ta.txt", HASH_A));
    assert!(entry(1, "x", HASH_A, 0).display_checked().is_none());
}

#[test]
fn read_back_sizes_are_stored_lengths() {
    let tree = Tree {
        entries: vec![entry(100644, "test.txt", HASH_A, 11), entry(40000, "d", HASH_B, 0)],
    };
    let parsed = TreeParser::new(&tree.to_bytes(), None).parse().unwrap();
    assert_eq!(parsed.len(), 2);
    assert_eq!(parsed[0].filename, "test.txt");
    assert_eq!(parsed[0].hash, HASH_A);
    assert_eq!(parsed[0].mode, 100644);
    assert_eq!(parsed[0].size, "100644".len() + "test.txt".len() + 22);
    assert_eq!(parsed[1].size, "40000".len() + 1 + 22);
}
