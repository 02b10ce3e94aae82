//! The gzip layer, which the `flate2` crate provides.
use std::io::{ErrorKind, Read, Write};

use flate2::read::GzDecoder;
use flate2::write::GzEncoder;
use flate2::Compression;
use vstd::prelude::*;

verus! {

/// The gzip stream that `flate2::write::GzEncoder`, at the default compression level, produces
/// from `data`.
pub uninterp spec fn gz_encoded(data: Seq<u8>) -> Seq<u8>;

/// What `flate2::read::GzDecoder` reads from the gzip stream `data` (its first member): the
/// decompressed bytes, or the kind of the I/O error that it reported.
pub uninterp spec fn gz_decoded(data: Seq<u8>) -> Result<Seq<u8>, ErrorKind>;

/// Compresses `data` into a gzip stream with `flate2::write::GzEncoder` (`write_all`, then
/// `finish`) at the default compression level.
///
/// The contract claims that this succeeds, that the stream depends on `data` alone (it is
/// `gz_encoded(data)`), and that it decodes, with `GzDecoder`, to `data`, as the examples of
/// `flate2`'s documentation show. It succeeds because the encoder writes into a `Vec`, whose
/// writes do not fail, and the `miniz_oxide` compressor behind it reports an error only when it
/// is called again after the stream is finished or when an output callback fails, neither of
/// which one `write_all` and one `finish` into a buffer do. The contract does not say which
/// bytes the stream holds.
#[verifier::external_body]
pub(crate) fn gzip_compress(data: &[u8]) -> (res: Result<Vec<u8>, ErrorKind>)
    ensures
        res is Ok,
        res matches Ok(z) ==> z@ == gz_encoded(data@),
        res matches Ok(z) ==> gz_decoded(z@) is Ok && gz_decoded(z@)->Ok_0 == data@,
{
    let mut encoder = GzEncoder::new(Vec::new(), Compression::default());
    match encoder.write_all(data) {
        Ok(()) => {},
        Err(e) => return Err(e.kind()),
    }
    match encoder.finish() {
        Ok(z) => Ok(z),
        Err(e) => Err(e.kind()),
    }
}

/// Decompresses the gzip stream `data` with `flate2::read::GzDecoder` (`read_to_end`).
///
/// The contract claims only that the result depends on `data` alone: it is `gz_decoded(data)`.
#[verifier::external_body]
pub(crate) fn gzip_decompress(data: &[u8]) -> (res: Result<Vec<u8>, ErrorKind>)
    ensures
        res matches Ok(v) ==> gz_decoded(data@) is Ok && gz_decoded(data@)->Ok_0 == v@,
        res matches Err(k) ==> gz_decoded(data@) is Err && gz_decoded(data@)->Err_0 == k,
{
    let mut buf = Vec::new();
    match GzDecoder::new(data).read_to_end(&mut buf) {
        Ok(_) => Ok(buf),
        Err(e) => Err(e.kind()),
    }
}

} // verus!
