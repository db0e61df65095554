//! gzip, as the `flate2` crate writes and reads it.
use vstd::prelude::*;

verus! {

/// The gzip stream `flate2::write::GzEncoder` writes for the bytes at the default level.
pub uninterp spec fn gzip_of(data: Seq<u8>) -> Seq<u8>;

/// The bytes `flate2::read::GzDecoder` reads out of a gzip stream; `None` when
/// the stream is not valid gzip.
pub uninterp spec fn gunzip_of(data: Seq<u8>) -> Option<Seq<u8>>;

/// `flate2::write::GzEncoder` over a `Vec<u8>` at `Compression::default()`.
/// Writing into memory does not fail, so the empty result for a write error is
/// never returned.
#[verifier::external_body]
pub(crate) fn gzip_compress(data: &[u8]) -> (r: Vec<u8>)
    ensures
        r@ == gzip_of(data@),
{
    let mut encoder = flate2::write::GzEncoder::new(Vec::new(), flate2::Compression::default());
    match std::io::Write::write_all(&mut encoder, data) {
        Ok(()) => {},
        Err(_) => {
            return Vec::new();
        },
    }
    match encoder.finish() {
        Ok(v) => v,
        Err(_) => Vec::new(),
    }
}

/// `flate2::read::GzDecoder` read to the end; `None` on a decoding error.
#[verifier::external_body]
pub(crate) fn gunzip(data: &[u8]) -> (r: Option<Vec<u8>>)
    ensures
        match r {
            Some(v) => gunzip_of(data@) == Some(v@),
            None => gunzip_of(data@) is None,
        },
{
    let mut decoder = flate2::read::GzDecoder::new(data);
    let mut out: Vec<u8> = Vec::new();
    match std::io::Read::read_to_end(&mut decoder, &mut out) {
        Ok(_) => Some(out),
        Err(_) => None,
    }
}

/// A response body, unpacked when it starts with the gzip magic bytes `1f 8b`;
/// `None` when such a body does not decode.
pub fn decode_body(bytes: &[u8]) -> (r: Option<Vec<u8>>)
    ensures
        bytes@.len() >= 2 && bytes@[0] == 0x1f && bytes@[1] == 0x8b ==> match r {
            Some(v) => gunzip_of(bytes@) == Some(v@),
            None => gunzip_of(bytes@) is None,
        },
        !(bytes@.len() >= 2 && bytes@[0] == 0x1f && bytes@[1] == 0x8b) ==> (r matches Some(v) && v@
            == bytes@),
{
    if bytes.len() >= 2 && bytes[0] == 0x1f && bytes[1] == 0x8b {
        gunzip(bytes)
    } else {
        let mut out: Vec<u8> = Vec::new();
        let mut i: usize = 0;
        while i < bytes.len()
            invariant
                i <= bytes@.len(),
                out@ == bytes@.subrange(0, i as int),
            decreases bytes@.len() - i,
        {
            out.push(bytes[i]);
            i = i + 1;
        }
        assert(out@ =~= bytes@);
        Some(out)
    }
}

} // verus!
