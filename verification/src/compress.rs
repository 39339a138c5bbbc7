//! zlib compression of telemetry payloads.
//!
//! Compression and decompression go through the `flate2` crate behind
//! trusted wrappers; the compressed image of a payload is named, and
//! decompression is the promised inverse.

use vstd::prelude::*;

use crate::errors::AgentError;
use vstd::string::StringSliceAdditionalSpecFns;

verus! {

/// Default zlib compression level.
pub const DEFAULT_COMPRESSION_LEVEL: u32 = 6;

/// The zlib (deflate with zlib envelope) image of a byte sequence at a
/// given compression level, as `flate2` produces it.
pub uninterp spec fn zlib_deflate(data: Seq<u8>, level: u32) -> Seq<u8>;

/// Relies on `flate2::write::ZlibEncoder` writing into a `Vec`, which
/// cannot fail: the result is the zlib image of the input at the given
/// level, a function of the bytes and the level alone.
#[verifier::external_body]
pub fn compress_data(data: &[u8], level: u32) -> (r: Result<Vec<u8>, AgentError>)
    requires
        level <= 9,
    ensures
        r is Ok,
        r is Ok ==> r.unwrap()@ == zlib_deflate(data@, level),
{
    let mut encoder = flate2::write::ZlibEncoder::new(
        Vec::new(),
        flate2::Compression::new(level),
    );
    match std::io::Write::write_all(&mut encoder, data) {
        Ok(()) => encoder.finish().map_err(|_| AgentError::DecompressionFailed),
        Err(_) => Err(AgentError::DecompressionFailed),
    }
}

/// Relies on `flate2::read::ZlibDecoder`: inflating the zlib image of a
/// byte sequence yields that sequence back; other inputs may be rejected.
#[verifier::external_body]
pub fn decompress_data(compressed_data: &[u8]) -> (r: Result<Vec<u8>, AgentError>)
    ensures
        forall|orig: Seq<u8>, level: u32|
            compressed_data@ == #[trigger] zlib_deflate(orig, level) ==> r is Ok
                && r.unwrap()@ == orig,
        r is Err ==> r.unwrap_err() == AgentError::DecompressionFailed,
{
    let mut decoder = flate2::read::ZlibDecoder::new(compressed_data);
    let mut decompressed = Vec::new();
    match std::io::Read::read_to_end(&mut decoder, &mut decompressed) {
        Ok(_) => Ok(decompressed),
        Err(_) => Err(AgentError::DecompressionFailed),
    }
}

#[verifier::external_type_specification]
#[verifier::external_body]
pub struct ExUtf8Error(core::str::Utf8Error);

/// Relies on `core::str::from_utf8`: succeeds exactly on valid UTF-8 and
/// returns the text whose byte encoding is the input.
pub assume_specification[ core::str::from_utf8 ](v: &[u8]) -> (r: Result<
    &str,
    core::str::Utf8Error,
>)
    ensures
        r is Ok <==> vstd::utf8::valid_utf8(v@),
        r is Ok ==> r.unwrap().spec_bytes() == v@,
;

/// Compress the UTF-8 bytes of a string.
pub fn compress_string(s: &str, level: u32) -> (r: Result<Vec<u8>, AgentError>)
    requires
        level <= 9,
    ensures
        r is Ok,
        r is Ok ==> r.unwrap()@ == zlib_deflate(s.spec_bytes(), level),
{
    compress_data(s.as_bytes(), level)
}

/// Decompress bytes and decode them as UTF-8 text.
pub fn decompress_to_string(compressed_data: &[u8]) -> (r: Result<String, AgentError>)
    ensures
        forall|orig: Seq<char>, level: u32|
            compressed_data@ == #[trigger] zlib_deflate(vstd::utf8::encode_utf8(orig), level)
                ==> r is Ok && r.unwrap()@ == orig,
{
    match decompress_data(compressed_data) {
        Ok(decompressed) => {
            match core::str::from_utf8(decompressed.as_slice()) {
                Ok(text) => {
                    let owned = text.to_owned();
                    proof {
                        assert forall|orig: Seq<char>, level: u32|
                            compressed_data@ == #[trigger] zlib_deflate(
                                vstd::utf8::encode_utf8(orig),
                                level,
                            ) implies owned@ == orig by {
                            assert(decompressed@ == vstd::utf8::encode_utf8(orig));
                            assert(vstd::utf8::encode_utf8(text@) == vstd::utf8::encode_utf8(
                                orig,
                            ));
                            vstd::utf8::encode_utf8_decode_utf8(text@);
                            vstd::utf8::encode_utf8_decode_utf8(orig);
                        }
                    }
                    Ok(owned)
                },
                Err(_) => {
                    proof {
                        assert forall|orig: Seq<char>, level: u32|
                            compressed_data@ == #[trigger] zlib_deflate(
                                vstd::utf8::encode_utf8(orig),
                                level,
                            ) implies false by {
                            assert(decompressed@ == vstd::utf8::encode_utf8(orig));
                            vstd::utf8::encode_utf8_valid_utf8(orig);
                        }
                    }
                    Err(AgentError::InvalidUtf8)
                },
            }
        },
        Err(e) => {
            proof {
                assert forall|orig: Seq<char>, level: u32|
                    compressed_data@ == #[trigger] zlib_deflate(
                        vstd::utf8::encode_utf8(orig),
                        level,
                    ) implies false by {}
            }
            Err(e)
        },
    }
}

/// Whether compression paid off: the compressed size is under nine tenths
/// of the original size.
pub fn is_compression_beneficial(original: &[u8], compressed: &[u8]) -> (r: bool)
    ensures
        r == (original@.len() > 0 && 10 * compressed@.len() < 9 * original@.len()),
{
    if original.len() == 0 {
        return false;
    }
    (compressed.len() as u128) * 10 < (original.len() as u128) * 9
}

} // verus!
