use my_git::error::GitError;
use my_git::objects::object::ObjectType;
use my_git::objects::object_hash::ObjectHash;
use sha1::Digest;
use std::io::Write;
use flate2::write::ZlibEncoder;

fn expected(input: &[u8]) -> (String, Vec<u8>) {
    let hash = format!("{:x}", sha1::Sha1::digest(input)).to_string();
    let mut zlib_encoder = ZlibEncoder::new(Vec::new(), flate2::Compression::default());
    zlib_encoder.write_all(input).unwrap();
    (hash, zlib_encoder.finish().unwrap())
}

#[test]
fn test_build_object_hash() {
    let obj_type = ObjectType::Blob;
    let size = 11;
    let mut reader = b"hello world".as_slice();
    let mut writer = Vec::new();

    let object_hash = ObjectHash::build(&mut reader, &mut writer, obj_type, size).unwrap();

    let expected_hash_input = "blob 11\0hello world";
    let expected_hash = format!("{:x}", sha1::Sha1::digest(expected_hash_input.as_bytes())).to_string();
    assert_eq!(object_hash.hash, expected_hash);

    let expected_contents = Vec::new();
    let mut zlib_encoder = ZlibEncoder::new(expected_contents, flate2::Compression::default());
    zlib_encoder.write_all(expected_hash_input.as_bytes()).unwrap();
    let expected_contents = zlib_encoder.finish().unwrap();
    assert_eq!(writer, expected_contents);
}

#[test]
fn test_build_object_bigger_than_buf_size() {
    let buf_size = 1;
    let obj_type = ObjectType::Blob;
    let size = 11;
    let mut reader = b"hello world".as_slice();
    let mut writer = Vec::new();

    let object_hash =
        ObjectHash::build_with_buf_size(&mut reader, &mut writer, obj_type, size, buf_size).unwrap();

    let expected_hash_input = "blob 11\0hello world";
    let expected_hash = format!("{:x}", sha1::Sha1::digest(expected_hash_input.as_bytes())).to_string();
    assert_eq!(object_hash.hash, expected_hash);

    let expected_contents = Vec::new();
    let mut zlib_encoder = ZlibEncoder::new(expected_contents, flate2::Compression::default());
    zlib_encoder.write_all(expected_hash_input.as_bytes()).unwrap();
    let expected_contents = zlib_encoder.finish().unwrap();
    assert_eq!(writer, expected_contents);
}

#[test]
fn test_build_size_mismatch_returns_error() {
    let obj_type = ObjectType::Blob;
    let size = 5; // declared size != actual content length (11)
    let mut reader = b"hello world".as_slice();
    let mut writer = Vec::new();

    let result = ObjectHash::build(&mut reader, &mut writer, obj_type, size);
    assert!(result.is_err());
}

#[test]
fn test_build_empty_object() {
    let obj_type = ObjectType::Blob;
    let size = 0;
    let mut reader = b"".as_slice();
    let mut writer = Vec::new();

    let object_hash = ObjectHash::build(&mut reader, &mut writer, obj_type, size).unwrap();

    let expected_hash_input = "blob 0\0";
    let expected_hash = format!("{:x}", sha1::Sha1::digest(expected_hash_input.as_bytes())).to_string();
    assert_eq!(object_hash.hash, expected_hash);

    let expected_contents = Vec::new();
    let mut zlib_encoder = ZlibEncoder::new(expected_contents, flate2::Compression::default());
    zlib_encoder.write_all(expected_hash_input.as_bytes()).unwrap();
    let expected_contents = zlib_encoder.finish().unwrap();
    assert_eq!(writer, expected_contents);
}

#[test]
fn hello_world_blob_has_the_hash_git_gives_it() {
    let mut writer = Vec::new();
    let h = ObjectHash::build(b"hello world", &mut writer, ObjectType::Blob, 11).unwrap();
    assert_eq!(h.hash, "95d09f2b10159347eece71399a7e2e907ea3df4f");
    let mut writer = Vec::new();
    let h = ObjectHash::build(b"", &mut writer, ObjectType::Blob, 0).unwrap();
    assert_eq!(h.hash, "e69de29bb2d1d6434b8b29ae775ad8c2e48c5391");
}

#[test]
fn size_mismatch_reports_both_sizes_and_still_writes() {
    let mut writer = vec![7u8];
    let result = ObjectHash::build(b"hello world", &mut writer, ObjectType::Blob, 5);
    match result {
        Err(GitError::SizeMismatch { read, expected }) => {
            assert_eq!(read, 11);
            assert_eq!(expected, 5);
        }
        _ => panic!("expected a size mismatch"),
    }
    let (_, compressed) = expected(b"blob 5\0hello world");
    let mut all = vec![7u8];
    all.extend(compressed);
    assert_eq!(writer, all);
}

#[test]
fn empty_buffer_reads_nothing() {
    let mut writer = Vec::new();
    let result = ObjectHash::build_with_buf_size(b"hello", &mut writer, ObjectType::Blob, 5, 0);
    assert!(matches!(result, Err(GitError::SizeMismatch { read: 0, expected: 5 })));
    let mut writer = Vec::new();
    let h = ObjectHash::build_with_buf_size(b"hello", &mut writer, ObjectType::Blob, 0, 0).unwrap();
    assert_eq!(h.hash, expected(b"blob 0\0").0);
}

#[test]
fn tree_and_commit_headers_name_their_type() {
    let mut writer = Vec::new();
    let h = ObjectHash::build(b"abc", &mut writer, ObjectType::Tree, 3).unwrap();
    let (hash, compressed) = expected(b"tree 3\0abc");
    assert_eq!(h.hash, hash);
    assert_eq!(writer, compressed);
    let mut writer = Vec::new();
    let h = ObjectHash::build(b"abc", &mut writer, ObjectType::Commit, 3).unwrap();
    assert_eq!(h.hash, expected(b"commit 3\0abc").0);
}
