use vstd::prelude::*;

verus! {

/// What `miniz_oxide::deflate::compress_to_vec` returns for `data` at `level`.
pub uninterp spec fn raw_deflate(data: Seq<u8>, level: u8) -> Seq<u8>;

/// What `miniz_oxide::inflate::decompress_to_vec_with_limit` returns for
/// `data` and `limit`: the decompressed bytes, or on failure the length of
/// the output buffer that the decompressor held when it stopped.
pub uninterp spec fn raw_inflate(data: Seq<u8>, limit: usize) -> Result<Seq<u8>, usize>;

/// Calls `miniz_oxide::deflate::compress_to_vec`, which produces a raw DEFLATE
/// stream (no zlib wrapper) for levels 0 through 10. The contract only names
/// the result; the bytes chosen by the compressor are not stated.
#[verifier::external_body]
pub(crate) fn deflate(data: &[u8], level: u8) -> (out: Vec<u8>)
    requires
        level <= 10,
    ensures
        out@ == raw_deflate(data@, level),
{
    miniz_oxide::deflate::compress_to_vec(data, level)
}

/// Calls `miniz_oxide::inflate::decompress_to_vec_with_limit` on a raw DEFLATE
/// stream. On failure the outside error is reduced to the length of the output
/// buffer it carries. The contract names the result, states the documented
/// bound on the output length, and states that a stream produced by
/// `compress_to_vec` decompresses to the original bytes when they fit strictly
/// below the limit. Which malformed inputs fail, and how, is left unsaid.
#[verifier::external_body]
pub(crate) fn inflate(data: &[u8], limit: usize) -> (r: Result<Vec<u8>, usize>)
    ensures
        match r {
            Ok(v) => raw_inflate(data@, limit) == Ok::<Seq<u8>, usize>(v@) && v@.len() <= limit,
            Err(n) => raw_inflate(data@, limit) == Err::<Seq<u8>, usize>(n) && n <= limit,
        },
        r is Err ==> forall|x: Seq<u8>, level: u8|
            #![trigger raw_deflate(x, level)]
            !(level <= 10 && data@ == raw_deflate(x, level) && x.len() < limit),
        r matches Ok(v) ==> forall|x: Seq<u8>, level: u8|
            #![trigger raw_deflate(x, level)]
            level <= 10 && data@ == raw_deflate(x, level) && x.len() < limit ==> v@ == x,
{
    match miniz_oxide::inflate::decompress_to_vec_with_limit(data, limit) {
        Ok(v) => Ok(v),
        Err(e) => Err(e.output.len()),
    }
}

} // verus!
