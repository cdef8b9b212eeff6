//! The outside computations the store relies on: SHA-1, zlib compression and
//! decompression, and appending a character to a `String`.
use vstd::prelude::*;

verus! {

/// The SHA-1 digest of `data`.
pub uninterp spec fn sha1_of(data: Seq<u8>) -> Seq<u8>;

/// The zlib stream that the default compression level makes of `data`.
pub uninterp spec fn zlib_of(data: Seq<u8>) -> Seq<u8>;

/// What a zlib stream decompresses to, or `None` when `data` is not a
/// complete, valid zlib stream.
pub uninterp spec fn inflated(data: Seq<u8>) -> Option<Seq<u8>>;

/// Relies on `sha1::Sha1` through `digest::Digest::digest`: the digest is 20
/// bytes (its output type is `U20`) and depends on the input alone.
#[verifier::external_body]
pub(crate) fn sha1_digest(data: &[u8]) -> (r: Vec<u8>)
    ensures
        r@ == sha1_of(data@),
        r@.len() == 20,
{
    <sha1::Sha1 as sha1::Digest>::digest(data).to_vec()
}

/// Relies on `flate2::write::ZlibEncoder` with `Compression::default()`: the
/// stream depends on the input alone and decompresses back to it. The sink is
/// a `Vec`, whose writes do not fail, so the error arm is never taken.
#[verifier::external_body]
pub(crate) fn zlib_compress(data: &[u8]) -> (r: Vec<u8>)
    ensures
        r@ == zlib_of(data@),
        inflated(r@) == Some(data@),
{
    let mut encoder = flate2::write::ZlibEncoder::new(Vec::new(), flate2::Compression::default());
    let written = std::io::Write::write_all(&mut encoder, data);
    match (written, encoder.finish()) {
        (Ok(()), Ok(out)) => out,
        _ => Vec::new(),
    }
}

/// Relies on `flate2::read::ZlibDecoder` read to its end: it yields the
/// decompressed bytes of a complete stream, and an error on a corrupt or
/// incomplete one.
#[verifier::external_body]
pub(crate) fn zlib_decompress(data: &[u8]) -> (r: Option<Vec<u8>>)
    ensures
        match r {
            Some(v) => inflated(data@) == Some(v@),
            None => inflated(data@) is None,
        },
{
    let mut out = Vec::new();
    let mut decoder = flate2::read::ZlibDecoder::new(data);
    match std::io::Read::read_to_end(&mut decoder, &mut out) {
        Ok(_) => Some(out),
        Err(_) => None,
    }
}

/// Relies on `String::push`: appends one character.
#[verifier::external_body]
pub(crate) fn push_char(s: &mut String, c: char)
    ensures
        final(s)@ == old(s)@.push(c),
{
    s.push(c)
}

} // verus!
