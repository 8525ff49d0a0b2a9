//! The calls into the hashing and compression crates. Nothing here is
//! proved: each item states what the crate's source and documentation show.
use std::io::Read;
use std::io::Write;
use vstd::prelude::*;

verus! {

/// The SHA-1 digest of `data`, as the `sha1` crate computes it.
pub uninterp spec fn sha1_digest(data: Seq<u8>) -> Seq<u8>;

/// What a zlib encoder of the `flate2` crate, at the default compression
/// level, writes for `data` once finished; `None` when it reports an error.
pub uninterp spec fn zlib_compressed(data: Seq<u8>) -> Option<Seq<u8>>;

/// What a zlib decoder of the `flate2` crate reads out of `data` up to the
/// end of its stream; `None` when it reports an error (a corrupt or
/// incomplete stream).
pub uninterp spec fn zlib_decompressed(data: Seq<u8>) -> Option<Seq<u8>>;

/// `sha1::Sha1::digest` (through the `Digest` trait): the 20-byte SHA-1
/// digest of `data`. The contract names the digest and states its length,
/// which the crate's output size fixes at 20.
#[verifier::external_body]
pub(crate) fn sha1(data: &[u8]) -> (res: Vec<u8>)
    ensures
        res@ == sha1_digest(data@),
        res@.len() == 20,
{
    <sha1::Sha1 as sha1::Digest>::digest(data).to_vec()
}

/// `flate2::write::ZlibEncoder` over a `Vec`, at `Compression::default()`:
/// `write_all` of `data`, then `finish`. The contract names the output, and
/// states the round trip that the crate's own tests check (a
/// `read::ZlibDecoder` over the output reads back `data`).
#[verifier::external_body]
pub(crate) fn zlib_compress(data: &[u8]) -> (res: Option<Vec<u8>>)
    ensures
        match res {
            Some(out) => zlib_compressed(data@) == Some(out@) && zlib_decompressed(out@) == Some(
                data@,
            ),
            None => zlib_compressed(data@) is None,
        },
{
    let mut encoder = flate2::write::ZlibEncoder::new(Vec::new(), flate2::Compression::default());
    match encoder.write_all(data) {
        Ok(()) => encoder.finish().ok(),
        Err(_) => None,
    }
}

/// `flate2::read::ZlibDecoder` over `data`, read to the end of the stream.
/// The contract names the decoded bytes.
#[verifier::external_body]
pub(crate) fn zlib_decompress(data: &[u8]) -> (res: Option<Vec<u8>>)
    ensures
        match res {
            Some(out) => zlib_decompressed(data@) == Some(out@),
            None => zlib_decompressed(data@) is None,
        },
{
    let mut decoder = flate2::read::ZlibDecoder::new(data);
    let mut out = Vec::new();
    match decoder.read_to_end(&mut out) {
        Ok(_) => Some(out),
        Err(_) => None,
    }
}

} // verus!
