//! Packing and unpacking of gzip streams, which the `flate2` crate does.

use vstd::prelude::*;

verus! {

/// What unpacking `bytes` as one gzip member gives: the unpacked bytes, or
/// `None` where `bytes` are no sound gzip member.
pub uninterp spec fn gunzip_of(bytes: Seq<u8>) -> Option<Seq<u8>>;

/// What packing `bytes` at the default level gives: the gzip member, or
/// `None` where the compressor fails on `bytes`.
pub uninterp spec fn gzip_of(bytes: Seq<u8>) -> Option<Seq<u8>>;

/// Reads `bytes` to the end through `flate2::read::GzDecoder`. Not proved:
/// that the outcome depends on `bytes` alone, so that it can be called
/// `gunzip_of(bytes)`; a failure of the decoder is `None` there.
#[verifier::external_body]
pub(crate) fn gunzip(bytes: &Vec<u8>) -> (res: Result<Vec<u8>, std::io::Error>)
    ensures
        res is Ok ==> gunzip_of(bytes@) == Some(res->Ok_0@),
        res is Err ==> gunzip_of(bytes@) is None,
{
    let mut decoder = flate2::read::GzDecoder::new(bytes.as_slice());
    let mut out: Vec<u8> = Vec::new();
    match std::io::Read::read_to_end(&mut decoder, &mut out) {
        Ok(_) => Ok(out),
        Err(e) => Err(e),
    }
}

/// Reads `bytes` to the end through `flate2::read::GzEncoder` at the default
/// level. Not proved: that the outcome depends on `bytes` alone (the header
/// carries no time stamp and no name, and the input is read from memory), so
/// that it can be called `gzip_of(bytes)`, a failure of the encoder being
/// `None` there; and that unpacking what it gives on success gives `bytes`
/// back.
#[verifier::external_body]
pub(crate) fn gzip(bytes: &Vec<u8>) -> (res: Result<Vec<u8>, std::io::Error>)
    ensures
        res is Ok <==> gzip_of(bytes@) is Some,
        res is Ok ==> gzip_of(bytes@) == Some(res->Ok_0@) && gunzip_of(res->Ok_0@) == Some(
            bytes@,
        ),
{
    let level = flate2::Compression::default();
    let mut encoder = flate2::read::GzEncoder::new(bytes.as_slice(), level);
    let mut out: Vec<u8> = Vec::new();
    match std::io::Read::read_to_end(&mut encoder, &mut out) {
        Ok(_) => Ok(out),
        Err(e) => Err(e),
    }
}

} // verus!
