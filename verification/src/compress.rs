//! Whole-file compression: a one-shot sniff of the leading magic bytes
//! selects the codec, and the stream is decompressed into a single
//! buffer that all further parsing reads.

use vstd::prelude::*;

verus! {

use crate::error::BlendFileError;
use vstd::string::StringExecFns;

/// The codec a file's leading bytes select.
#[derive(Debug, Clone, Copy, PartialEq, Eq, Structural)]
pub enum Compression {
    Uncompressed,
    Zlib,
    Gzip,
    Zstd,
}

/// Classify the first bytes: zlib starts `78 9C`, `78 01` or `78 DA`;
/// zstd is exactly `28 B5 2F FD`; gzip is exactly `1F 8B 08 00`;
/// anything else is taken as uncompressed.
pub open spec fn spec_detect(bytes: Seq<u8>) -> Compression
    recommends
        bytes.len() >= 4,
{
    if bytes[0] == 0x78 && (bytes[1] == 0x9C || bytes[1] == 0x01 || bytes[1] == 0xDA) {
        Compression::Zlib
    } else if bytes[0] == 0x28 && bytes[1] == 0xB5 && bytes[2] == 0x2F && bytes[3] == 0xFD {
        Compression::Zstd
    } else if bytes[0] == 0x1F && bytes[1] == 0x8B && bytes[2] == 0x08 && bytes[3] == 0x00 {
        Compression::Gzip
    } else {
        Compression::Uncompressed
    }
}

/// What decompressing the whole stream yields, by codec: the raw bytes
/// when uncompressed, the codec's output when it succeeds, nothing when
/// the stream is shorter than the sniffed magic or corrupt.
pub open spec fn spec_decompressed(bytes: Seq<u8>) -> Option<Seq<u8>> {
    if bytes.len() < 4 {
        Option::None
    } else {
        match spec_detect(bytes) {
            Compression::Uncompressed => Option::Some(bytes),
            Compression::Zlib => zlib_inflated(bytes),
            Compression::Gzip => gzip_inflated(bytes),
            Compression::Zstd => zstd_decoded(bytes),
        }
    }
}

/// What flate2's zlib decoder makes of a byte stream, when it succeeds.
pub uninterp spec fn zlib_inflated(s: Seq<u8>) -> Option<Seq<u8>>;

/// What flate2's gzip decoder makes of a byte stream, when it succeeds.
pub uninterp spec fn gzip_inflated(s: Seq<u8>) -> Option<Seq<u8>>;

/// What zstd's decoder makes of a byte stream, when it succeeds.
pub uninterp spec fn zstd_decoded(s: Seq<u8>) -> Option<Seq<u8>>;

/// Relies on `flate2::read::ZlibDecoder` read to the end: over an
/// in-memory slice the outcome, success or failure, is a function of
/// the input bytes alone.
#[verifier::external_body]
fn inflate_zlib(data: &[u8]) -> (r: Result<Vec<u8>, String>)
    ensures
        match r {
            Ok(v) => zlib_inflated(data@) == Option::Some(v@),
            Err(_) => zlib_inflated(data@) is None,
        },
{
    let mut decoder = flate2::read::ZlibDecoder::new(data);
    let mut out = Vec::new();
    match std::io::Read::read_to_end(&mut decoder, &mut out) {
        Ok(_) => Ok(out),
        Err(e) => Err(e.to_string()),
    }
}

/// Relies on `flate2::read::GzDecoder` read to the end: over an
/// in-memory slice the outcome is a function of the input bytes alone.
#[verifier::external_body]
fn inflate_gzip(data: &[u8]) -> (r: Result<Vec<u8>, String>)
    ensures
        match r {
            Ok(v) => gzip_inflated(data@) == Option::Some(v@),
            Err(_) => gzip_inflated(data@) is None,
        },
{
    let mut decoder = flate2::read::GzDecoder::new(data);
    let mut out = Vec::new();
    match std::io::Read::read_to_end(&mut decoder, &mut out) {
        Ok(_) => Ok(out),
        Err(e) => Err(e.to_string()),
    }
}

/// Relies on `zstd::stream::decode_all`: over an in-memory slice the
/// outcome is a function of the input bytes alone.
#[verifier::external_body]
fn decode_zstd(data: &[u8]) -> (r: Result<Vec<u8>, String>)
    ensures
        match r {
            Ok(v) => zstd_decoded(data@) == Option::Some(v@),
            Err(_) => zstd_decoded(data@) is None,
        },
{
    match zstd::stream::decode_all(data) {
        Ok(v) => Ok(v),
        Err(e) => Err(e.to_string()),
    }
}

/// Sniff the codec from the first four bytes.
pub fn detect_compression(data: &[u8]) -> (c: Compression)
    requires
        data@.len() >= 4,
    ensures
        c == spec_detect(data@),
{
    let b0 = data[0];
    let b1 = data[1];
    let b2 = data[2];
    let b3 = data[3];
    if b0 == 0x78 && (b1 == 0x9C || b1 == 0x01 || b1 == 0xDA) {
        Compression::Zlib
    } else if b0 == 0x28 && b1 == 0xB5 && b2 == 0x2F && b3 == 0xFD {
        Compression::Zstd
    } else if b0 == 0x1F && b1 == 0x8B && b2 == 0x08 && b3 == 0x00 {
        Compression::Gzip
    } else {
        Compression::Uncompressed
    }
}

/// Sniff the codec and produce the single decompressed buffer that all
/// parsing reads; raw bytes pass through unchanged. A stream shorter
/// than the magic, or one its codec rejects, is a read failure: no
/// partial buffer is ever returned.
pub fn decompress_if_needed(data: &[u8]) -> (r: Result<Vec<u8>, BlendFileError>)
    ensures
        match r {
            Ok(v) => spec_decompressed(data@) == Option::Some(v@),
            Err(e) => spec_decompressed(data@) is None && e is IoError,
        },
{
    if data.len() < 4 {
        return Err(BlendFileError::IoError(String::from_str(
            "unexpected end of stream before the compression magic",
        )));
    }
    let c = detect_compression(data);
    let out = match c {
        Compression::Uncompressed => Ok(vstd::slice::slice_to_vec(data)),
        Compression::Zlib => inflate_zlib(data),
        Compression::Gzip => inflate_gzip(data),
        Compression::Zstd => decode_zstd(data),
    };
    match out {
        Ok(v) => Ok(v),
        Err(m) => Err(BlendFileError::IoError(m)),
    }
}

} // verus!
