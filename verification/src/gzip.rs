//! Body compression, delegated to the `flate2` crate.

use std::io::Write;
use vstd::prelude::*;

verus! {

/// The gzip stream that `flate2` produces for `data` at the default
/// compression level. The stream is a function of the input bytes alone:
/// the encoder writes a fixed header (modification time zero, operating
/// system byte 255) and a deterministic deflate body.
pub uninterp spec fn gzip_of(data: Seq<u8>) -> Seq<u8>;

/// Relies on `flate2::write::GzEncoder` with `flate2::Compression::default()`:
/// the result depends on the input bytes alone, and writing into a `Vec`
/// sink cannot fail.
#[verifier::external_body]
pub fn compress_with_gzip(input: &Vec<u8>) -> (r: Vec<u8>)
    ensures
        r@ == gzip_of(input@),
{
    let buffer: Vec<u8> = Vec::new();
    let mut encoder = flate2::write::GzEncoder::new(buffer, flate2::Compression::default());
    encoder.write_all(input.as_slice()).unwrap();
    encoder.finish().unwrap()
}

} // verus!
