//! Gzip, as `flate2` reads and writes it.
//!
//! The codec itself is not verified. Its two directions are given names, and
//! the contracts of this library speak of those names.

use vstd::prelude::*;

verus! {

/// What `flate2` decodes from the gzip stream `data`; `None` where decoding
/// fails.
pub uninterp spec fn gunzipped(data: Seq<u8>) -> Option<Seq<u8>>;

/// The gzip stream that `flate2` writes for `data` at its default level;
/// `None` where encoding fails.
pub uninterp spec fn gzipped(data: Seq<u8>) -> Option<Seq<u8>>;

/// Decodes one gzip member with `flate2::read::GzDecoder`, read to its end.
///
/// Trusted: the result is what the decoder yields for these bytes, and `None`
/// stands for any error that the decoder reports (a bad header, corrupt or
/// truncated data, a checksum that does not match).
#[verifier::external_body]
pub(crate) fn gunzip(data: &[u8]) -> (r: Option<Vec<u8>>)
    ensures
        match r {
            Some(text) => gunzipped(data@) == Some(text@),
            None => gunzipped(data@) is None,
        },
{
    let mut decoder = flate2::read::GzDecoder::new(data);
    let mut text: Vec<u8> = Vec::new();
    match std::io::Read::read_to_end(&mut decoder, &mut text) {
        Ok(_) => Some(text),
        Err(_) => None,
    }
}

/// Encodes `data` as one gzip member with `flate2::write::GzEncoder` at
/// `Compression::default()`, finished so that the trailer is part of the
/// result.
///
/// Trusted: the result is what the encoder writes for these bytes, `None`
/// stands for any error that it reports, and what it writes decodes back to
/// `data`.
#[verifier::external_body]
pub(crate) fn gzip(data: &[u8]) -> (r: Option<Vec<u8>>)
    ensures
        match r {
            Some(bytes) => gzipped(data@) == Some(bytes@) && gunzipped(bytes@) == Some(data@),
            None => gzipped(data@) is None,
        },
{
    let mut encoder = flate2::write::GzEncoder::new(Vec::new(), flate2::Compression::default());
    match std::io::Write::write_all(&mut encoder, data) {
        Ok(()) => encoder.finish().ok(),
        Err(_) => None,
    }
}

} // verus!
