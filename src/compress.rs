//! Compression of stream data.

use vstd::prelude::*;

verus! {

/// The zlib-wrapped DEFLATE encoding of `data` at compression level `level`.
pub uninterp spec fn zlib_of(data: Seq<u8>, level: u8) -> Seq<u8>;

/// The compression level used for every stream of the document.
pub const COMPRESSION_LEVEL: u8 = 6;

/// Relies on `miniz_oxide::deflate::compress_to_vec_zlib`, which compresses
/// the bytes with a zlib wrapper; the output depends on the input and the
/// level alone, and levels above ten are treated as ten.
#[verifier::external_body]
fn compress_zlib(data: &[u8], level: u8) -> (r: Vec<u8>)
    ensures
        r@ == zlib_of(data@, level),
{
    miniz_oxide::deflate::compress_to_vec_zlib(data, level)
}

/// Compresses data with the DEFLATE algorithm, as every `FlateDecode`
/// stream of the document is.
pub fn deflate(data: &[u8]) -> (r: Vec<u8>)
    ensures
        r@ == zlib_of(data@, COMPRESSION_LEVEL),
{
    compress_zlib(data, COMPRESSION_LEVEL)
}

} // verus!
