use vstd::prelude::*;
use crate::errors::GitError;

verus! {

/// What inflating a byte string yields: the decompressed bytes and the
/// number of leading input bytes the zlib stream occupies, or nothing when
/// no well-formed stream starts there.  A function of the bytes alone.
pub uninterp spec fn zlib_inflate(s: Seq<u8>) -> Option<(Seq<u8>, int)>;

/// What deflating a byte string yields at the default compression level.
/// A function of the bytes alone.
pub uninterp spec fn zlib_deflate(s: Seq<u8>) -> Seq<u8>;

/// Relies on flate2's `read::ZlibDecoder` (`read_to_end`, `total_in`):
/// decompression is a function of the input bytes alone, stops at the end
/// of the zlib stream, and `total_in` reports how many input bytes the
/// stream occupied.
#[verifier::external_body]
pub(crate) fn inflate_from(data: &Vec<u8>, from: usize) -> (r: Result<(Vec<u8>, usize), GitError>)
    requires
        from <= data@.len(),
    ensures
        match r {
            Ok(pair) => zlib_inflate(data@.skip(from as int)) == Some((pair.0@, pair.1 as int))
                && from + pair.1 <= data@.len(),
            Err(e) => e == GitError::ZlibInvalid && zlib_inflate(data@.skip(from as int))
                is None,
        },
{
    let mut decoder = flate2::read::ZlibDecoder::new(&data[from..]);
    let mut out: Vec<u8> = Vec::new();
    match std::io::Read::read_to_end(&mut decoder, &mut out) {
        Ok(_) => Ok((out, decoder.total_in() as usize)),
        Err(_) => Err(GitError::ZlibInvalid),
    }
}

/// Inflate a whole buffer.
pub fn inflate_all(data: &Vec<u8>) -> (r: Result<Vec<u8>, GitError>)
    ensures
        match r {
            Ok(out) => zlib_inflate(data@) is Some && zlib_inflate(data@)->Some_0.0 == out@,
            Err(e) => e == GitError::ZlibInvalid && zlib_inflate(data@) is None,
        },
{
    proof {
        assert(data@.skip(0) =~= data@);
    }
    match inflate_from(data, 0) {
        Ok((out, used)) => {
            proof {
                assert(zlib_inflate(data@) == Some((out@, used as int)));
            }
            Ok(out)
        },
        Err(e) => Err(e),
    }
}

/// Relies on flate2's `write::ZlibEncoder` at the default level:
/// compression is a function of the input bytes alone, and inflating the
/// result gives the input back, consuming the whole stream.
#[verifier::external_body]
pub(crate) fn deflate(data: &Vec<u8>) -> (r: Vec<u8>)
    ensures
        r@ == zlib_deflate(data@),
        zlib_inflate(zlib_deflate(data@)) == Some((data@, r@.len() as int)),
{
    let mut encoder = flate2::write::ZlibEncoder::new(Vec::new(), flate2::Compression::default());
    // writing into a Vec sink cannot fail
    let _ = std::io::Write::write_all(&mut encoder, data.as_slice());
    encoder.finish().unwrap_or_default()
}

} // verus!
