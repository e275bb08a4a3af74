use vstd::prelude::*;

verus! {

/// The zlib stream that miniz_oxide's compressor produces for `data` at compression `level`.
pub uninterp spec fn zlib_compressed(data: Seq<u8>, level: u8) -> Seq<u8>;

/// What miniz_oxide's zlib decompressor makes of `data`: the inflated bytes, or nothing when
/// `data` is not a complete zlib stream.
pub uninterp spec fn zlib_decompressed(data: Seq<u8>) -> Option<Seq<u8>>;

/// The compression level used for outgoing packets (miniz_oxide's default level).
pub const COMPRESSION_LEVEL: u8 = 6;

/// Compresses `data` into a zlib stream with `miniz_oxide::deflate::compress_to_vec_zlib`.
///
/// Trusted, not proved: the result is `zlib_compressed(data, level)`, and the zlib
/// decompressor (`zlib_decompress`) gives `data` back from it, as lossless compression must.
#[verifier::external_body]
pub(crate) fn zlib_compress(data: &[u8], level: u8) -> (compressed: Vec<u8>)
    ensures
        compressed@ == zlib_compressed(data@, level),
        zlib_decompressed(compressed@) == Some(data@),
{
    miniz_oxide::deflate::compress_to_vec_zlib(data, level)
}

/// Inflates the zlib stream `data` with `miniz_oxide::inflate::decompress_to_vec_zlib`.
///
/// Trusted, not proved: the result is `zlib_decompressed(data)`, with the crate's error
/// turned into `None`.
#[verifier::external_body]
pub(crate) fn zlib_decompress(data: &[u8]) -> (inflated: Option<Vec<u8>>)
    ensures
        match inflated {
            Some(v) => zlib_decompressed(data@) == Some(v@),
            None => zlib_decompressed(data@) is None,
        },
{
    miniz_oxide::inflate::decompress_to_vec_zlib(data).ok()
}

} // verus!
