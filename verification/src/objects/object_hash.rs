//! Hashing and compressing objects as git stores them.
use crate::error::{ErrorKind, GitError};
use crate::objects::codec::{sha1, sha1_digest, zlib_compress, zlib_compressed, zlib_decompressed};
use crate::objects::numbers::push_decimal;
use crate::objects::object::{object_header, ObjectType};
use crate::objects::utils::{ascii_chars, bytes_to_string, hex_encode};
use vstd::prelude::*;
use vstd::slice::slice_to_vec;

verus! {

/// A computed Git object hash with its SHA-1 hex digest.
pub struct ObjectHash {
    pub hash: String,
}

/// The content that reading `reader` through a buffer of `buf_size` bytes
/// yields: all of it, or nothing when the buffer is empty (a read into an
/// empty buffer returns 0, which ends the reading).
pub open spec fn read_content(reader: Seq<u8>, buf_size: usize) -> Seq<u8> {
    if buf_size == 0 {
        Seq::empty()
    } else {
        reader
    }
}

/// The hash of stored object data as git writes it: lowercase hexadecimal
/// SHA-1.
pub open spec fn hash_text(data: Seq<u8>) -> Seq<char> {
    ascii_chars(hex_encode(sha1_digest(data)))
}

/// The header of an object followed by its content: what git hashes and
/// compresses.
pub open spec fn object_data(obj_type: ObjectType, size: usize, content: Seq<u8>) -> Seq<u8> {
    object_header(obj_type, size as nat) + content
}

/// What hashing `content` under the header for `obj_type` and `size` comes
/// to: the compressed data goes to the writer whenever the compressor takes
/// it; then a content of another length than `size` is an error, and
/// otherwise the result is the hash of the data: the 20-byte digest as 40
/// lowercase hexadecimal digits.
pub open spec fn hash_result(
    res: Result<ObjectHash, GitError>,
    old_writer: Seq<u8>,
    new_writer: Seq<u8>,
    obj_type: ObjectType,
    size: usize,
    content: Seq<u8>,
) -> bool {
    let data = object_data(obj_type, size, content);
    match zlib_compressed(data) {
        None => {
            &&& new_writer == old_writer
            &&& res matches Err(e) && e@ == ErrorKind::CompressionFailed
        },
        Some(c) => {
            &&& new_writer == old_writer + c
            &&& zlib_decompressed(c) == Some(data)
            &&& if content.len() != size {
                res matches Err(e) && e@ == ErrorKind::SizeMismatch {
                    read: content.len() as usize,
                    expected: size,
                }
            } else {
                res matches Ok(h) && h.hash@ == hash_text(data) && sha1_digest(data).len() == 20
                    && h.hash@.len() == 40
            }
        },
    }
}

impl ObjectHash {
    const DEFAULT_BUF_SIZE: usize = 8192;

    /// Hashes and zlib-compresses a Git object, writing the result to `writer`.
    ///
    /// Reads raw content from `reader`, prepends the standard Git object header
    /// (`"{type} {size}\0"`), and returns the SHA-1 hash of the full object.
    pub fn build(reader: &[u8], writer: &mut Vec<u8>, obj_type: ObjectType, size: usize) -> (res:
        Result<ObjectHash, GitError>)
        ensures
            hash_result(res, old(writer)@, final(writer)@, obj_type, size, reader@),
    {
        Self::build_with_buf_size(reader, writer, obj_type, size, Self::DEFAULT_BUF_SIZE)
    }

    /// Like [`build`](Self::build), but with a configurable read buffer size.
    pub fn build_with_buf_size(
        reader: &[u8],
        writer: &mut Vec<u8>,
        obj_type: ObjectType,
        size: usize,
        buf_size: usize,
    ) -> (res: Result<ObjectHash, GitError>)
        ensures
            hash_result(
                res,
                old(writer)@,
                final(writer)@,
                obj_type,
                size,
                read_content(reader@, buf_size),
            ),
    {
        let content: Vec<u8> = if buf_size == 0 {
            Vec::new()
        } else {
            slice_to_vec(reader)
        };
        let mut data = obj_type.name_bytes();
        data.push(32);
        push_decimal(&mut data, size as u64);
        data.push(0);
        data.extend_from_slice(content.as_slice());
        assert(data@ =~= object_data(obj_type, size, read_content(reader@, buf_size)));
        let compressed = match zlib_compress(data.as_slice()) {
            Some(c) => c,
            None => {
                return Err(GitError::CompressionFailed);
            },
        };
        writer.extend_from_slice(compressed.as_slice());
        assert(final(writer)@ =~= old(writer)@ + compressed@);
        let total_bytes_read = content.len();
        if total_bytes_read != size {
            return Err(GitError::SizeMismatch { read: total_bytes_read, expected: size });
        }
        let digest = sha1(data.as_slice());
        let hash = bytes_to_string(digest.as_slice());
        Ok(ObjectHash { hash })
    }
}

} // verus!
