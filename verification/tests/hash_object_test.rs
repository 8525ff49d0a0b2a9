use my_git::objects::object::ObjectType;
use my_git::objects::object_hash::ObjectHash;
use my_git::objects::store::Store;

#[test]
fn test_hash_object_print_only() {
    let mut tempfile: &[u8] = b"hello world";
    let mut sink = Vec::new();
    let object_hash = ObjectHash::build(tempfile, &mut sink, ObjectType::Blob, 11).unwrap().hash;

    let expected_hash =
        ObjectHash::build(&mut tempfile, &mut Vec::new(), ObjectType::Blob, 11).unwrap();
    assert_eq!(expected_hash.hash, object_hash)
}

#[test]
fn test_hash_object_write_to_file() {
    let mut written = Vec::new();
    let object_hash = ObjectHash::build(b"hello world", &mut written, ObjectType::Blob, 11)
        .unwrap()
        .hash;
    assert_eq!(object_hash, "95d09f2b10159347eece71399a7e2e907ea3df4f");

    let decoded_object = Store::decode_object(&written).unwrap();
    assert_eq!(b"blob 11\0hello world", decoded_object.as_slice());
}
