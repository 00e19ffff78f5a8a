use vstd::prelude::*;

use crate::error::SquashfsError;

verus! {

/// Compression method identifier the format uses for zlib-compressed images.
pub const COMP_GZIP: u16 = 1;

/// What the zlib decoder returns for a given compressed byte sequence:
/// `None` when the bytes are not a well-formed zlib stream, otherwise the
/// decompressed bytes. The result depends on the input bytes alone.
pub uninterp spec fn inflate_zlib(s: Seq<u8>) -> Option<Seq<u8>>;

/// Relies on `flate2::read::ZlibDecoder` (backed by `miniz_oxide`): inflating
/// a byte sequence is a deterministic function of those bytes, failing
/// exactly when they are not a well-formed zlib stream.
#[verifier::external_body]
fn zlib_decompress(input: &Vec<u8>) -> (r: Result<Vec<u8>, SquashfsError>)
    ensures
        match r {
            Ok(v) => inflate_zlib(input@) == Some(v@),
            Err(e) => inflate_zlib(input@) is None && e == SquashfsError::DecompressionFailed,
        },
{
    let mut out: Vec<u8> = Vec::new();
    let mut dec = flate2::read::ZlibDecoder::new(input.as_slice());
    match std::io::Read::read_to_end(&mut dec, &mut out) {
        Ok(_) => Ok(out),
        Err(_) => Err(SquashfsError::DecompressionFailed),
    }
}

/// The model of the codec registry: which decompressed bytes a compression
/// method yields for a raw block, `None` when the method is unsupported or
/// the bytes are rejected.
pub open spec fn spec_decompress(comp: int, raw: Seq<u8>) -> Option<Seq<u8>> {
    if comp == COMP_GZIP {
        inflate_zlib(raw)
    } else {
        None
    }
}

/// Decompresses one raw block with the image's compression method. Fails
/// with `UnsupportedCodec` exactly on methods outside the supported set and
/// with `DecompressionFailed` exactly when the codec rejects the bytes; it
/// never silently passes bytes through.
pub fn decompress(comp: u16, raw: &Vec<u8>) -> (r: Result<Vec<u8>, SquashfsError>)
    ensures
        r matches Ok(v) ==> spec_decompress(comp as int, raw@) == Some(v@),
        r is Err <==> spec_decompress(comp as int, raw@) is None,
        r == Err::<Vec<u8>, SquashfsError>(SquashfsError::UnsupportedCodec) <==> comp != COMP_GZIP,
        r matches Err(e) ==> (e == SquashfsError::UnsupportedCodec || e
            == SquashfsError::DecompressionFailed),
{
    if comp == COMP_GZIP {
        zlib_decompress(raw)
    } else {
        Err(SquashfsError::UnsupportedCodec)
    }
}

} // verus!
