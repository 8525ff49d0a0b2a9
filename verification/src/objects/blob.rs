use crate::objects::object::ObjectType;
use vstd::prelude::*;

verus! {

/// The content of a file, as stored in a blob object.
pub struct Blob {
    pub obj_type: ObjectType,
    pub content: Vec<u8>,
    pub size: usize,
}

} // verus!
