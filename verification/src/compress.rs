//! Deflate-based compression through `flate2`.
use flate2::write::{GzEncoder, ZlibEncoder};
use flate2::Compression;
use std::io::Write;
use vstd::prelude::*;

verus! {

/// The gzip stream that `flate2` produces for `data` at the default level, with the
/// default header (no name, no comment, mtime 0, unknown OS).
pub uninterp spec fn gzip_of(data: Seq<u8>) -> Seq<u8>;

/// The zlib stream that `flate2` produces for `data` at the default level.
pub uninterp spec fn zlib_of(data: Seq<u8>) -> Seq<u8>;

/// Compresses with `flate2::write::GzEncoder` (`new`, `write_all`, `finish`) into a fresh
/// `Vec`. Claimed: the stream is `gzip_of(data)`, and it is always produced: the encoder's
/// only sink is the `Vec`, whose writes do not fail, and the deflate step reports errors
/// only for parameters or call orders that this body does not use.
#[verifier::external_body]
pub(crate) fn gzip_compress(data: &[u8]) -> (r: Vec<u8>)
    ensures
        r@ == gzip_of(data@),
{
    let mut enc = GzEncoder::new(Vec::new(), Compression::default());
    enc.write_all(data).expect("writing into a Vec does not fail");
    enc.finish().expect("writing into a Vec does not fail")
}

/// Compresses with `flate2::write::ZlibEncoder` (`new`, `write_all`, `finish`) into a fresh
/// `Vec`. Claimed: the stream is `zlib_of(data)`, and it is always produced, for the same
/// reasons as `gzip_compress`.
#[verifier::external_body]
pub(crate) fn zlib_compress(data: &[u8]) -> (r: Vec<u8>)
    ensures
        r@ == zlib_of(data@),
{
    let mut enc = ZlibEncoder::new(Vec::new(), Compression::default());
    enc.write_all(data).expect("writing into a Vec does not fail");
    enc.finish().expect("writing into a Vec does not fail")
}

} // verus!
