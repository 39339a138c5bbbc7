//! CRC32 checksums and the error-correction envelope.
//!
//! A frame or state snapshot carries a CRC32 trailer in little-endian
//! order; validation recomputes the checksum and compares. The
//! Castagnoli checksum itself comes from the `crc` crate behind a
//! trusted wrapper.

use vstd::prelude::*;

use crate::errors::AgentError;

verus! {

/// The CRC-32C (Castagnoli) checksum of a byte sequence, as the `crc`
/// crate computes it.
pub uninterp spec fn crc32_of(data: Seq<u8>) -> u32;

/// Relies on `crc::Crc::<u32>::checksum` with the CRC-32/ISCSI
/// (Castagnoli) algorithm: the checksum is a function of the bytes
/// alone.
#[verifier::external_body]
pub fn compute_crc32(data: &[u8]) -> (r: u32)
    ensures
        r == crc32_of(data@),
{
    crc::Crc::<u32>::new(&crc::CRC_32_ISCSI).checksum(data)
}

/// Check bytes against an expected CRC32 value.
pub fn validate_crc32(data: &[u8], expected_crc: u32) -> (r: bool)
    ensures
        r == (crc32_of(data@) == expected_crc),
{
    compute_crc32(data) == expected_crc
}

/// A byte sequence followed by its own CRC32, little-endian.
pub open spec fn with_crc32(data: Seq<u8>) -> Seq<u8> {
    data + vstd::bytes::spec_u32_to_le_bytes(crc32_of(data))
}

/// Append the CRC32 of `data` to a copy of it.
pub fn add_crc32_checksum(data: &[u8]) -> (r: Vec<u8>)
    ensures
        r@ == with_crc32(data@),
        r@.len() == data@.len() + 4,
{
    let crc = compute_crc32(data);
    let mut result: Vec<u8> = vstd::slice::slice_to_vec(data);
    let crc_bytes = vstd::bytes::u32_to_le_bytes(crc);
    result.extend_from_slice(crc_bytes.as_slice());
    proof {
        assert(result@ =~= with_crc32(data@));
    }
    result
}

/// Whether a buffer ends in a CRC32 trailer that matches its prefix.
pub open spec fn crc_trailer_valid(data: Seq<u8>) -> bool {
    &&& data.len() >= 4
    &&& crc32_of(data.subrange(0, data.len() - 4)) == vstd::bytes::spec_u32_from_le_bytes(
        data.subrange(data.len() - 4, data.len() as int),
    )
}

/// Strip and verify a CRC32 trailer; returns the covered bytes on success.
pub fn validate_and_extract_data(data: &[u8]) -> (r: Result<Vec<u8>, AgentError>)
    ensures
        r is Ok <==> crc_trailer_valid(data@),
        r is Ok ==> r.unwrap()@ == data@.subrange(0, data@.len() - 4),
        r is Err ==> (r.unwrap_err() == AgentError::InvalidData <==> data@.len() < 4),
        r is Err && data@.len() >= 4 ==> r.unwrap_err() == AgentError::ChecksumMismatch,
{
    let len = data.len();
    if len < 4 {
        return Err(AgentError::InvalidData);
    }
    let content = vstd::slice::slice_subrange(data, 0, len - 4);
    let crc_slice = vstd::slice::slice_subrange(data, len - 4, len);
    let expected_crc = vstd::bytes::u32_from_le_bytes(crc_slice);
    if validate_crc32(content, expected_crc) {
        Ok(vstd::slice::slice_to_vec(content))
    } else {
        Err(AgentError::ChecksumMismatch)
    }
}

/// A checksum record kept beside a payload: its CRC32, its length, and
/// the offset of the checksum within an enclosing envelope.
#[derive(Clone, Copy, Debug, PartialEq, Eq, Structural)]
pub struct ErrorCorrectionCode {
    /// CRC32 of the protected bytes.
    pub crc32: u32,
    /// Length of the protected bytes.
    pub data_length: u32,
    /// Offset of the checksum in an enclosing envelope; zero by default.
    pub checksum_offset: u32,
}

/// The 12-byte little-endian image of an `ErrorCorrectionCode`.
pub open spec fn spec_ecc_bytes(ecc: ErrorCorrectionCode) -> Seq<u8> {
    vstd::bytes::spec_u32_to_le_bytes(ecc.crc32) + vstd::bytes::spec_u32_to_le_bytes(
        ecc.data_length,
    ) + vstd::bytes::spec_u32_to_le_bytes(ecc.checksum_offset)
}

impl ErrorCorrectionCode {
    /// Build the checksum record protecting `data`.
    pub fn new(data: &[u8]) -> (r: ErrorCorrectionCode)
        requires
            data@.len() <= u32::MAX,
        ensures
            r.crc32 == crc32_of(data@),
            r.data_length == data@.len(),
            r.checksum_offset == 0,
    {
        ErrorCorrectionCode {
            crc32: compute_crc32(data),
            data_length: data.len() as u32,
            checksum_offset: 0,
        }
    }

    /// Serialize to the 12-byte little-endian layout.
    pub fn serialize(&self) -> (r: Vec<u8>)
        ensures
            r@ == spec_ecc_bytes(*self),
            r@.len() == 12,
    {
        let mut buffer = vstd::bytes::u32_to_le_bytes(self.crc32);
        let b1 = vstd::bytes::u32_to_le_bytes(self.data_length);
        let b2 = vstd::bytes::u32_to_le_bytes(self.checksum_offset);
        buffer.extend_from_slice(b1.as_slice());
        buffer.extend_from_slice(b2.as_slice());
        proof {
            assert(buffer@ =~= spec_ecc_bytes(*self));
        }
        buffer
    }

    /// Parse the 12-byte layout back; rejects short input.
    pub fn deserialize(data: &[u8]) -> (r: Result<ErrorCorrectionCode, AgentError>)
        ensures
            r is Ok <==> data@.len() >= 12,
            r is Ok ==> spec_ecc_bytes(r.unwrap()) == data@.subrange(0, 12),
    {
        if data.len() < 12 {
            return Err(AgentError::InvalidData);
        }
        let crc32 = vstd::bytes::u32_from_le_bytes(vstd::slice::slice_subrange(data, 0, 4));
        let data_length = vstd::bytes::u32_from_le_bytes(vstd::slice::slice_subrange(data, 4, 8));
        let checksum_offset = vstd::bytes::u32_from_le_bytes(
            vstd::slice::slice_subrange(data, 8, 12),
        );
        let ecc = ErrorCorrectionCode { crc32, data_length, checksum_offset };
        proof {
            vstd::bytes::lemma_auto_spec_u32_to_from_le_bytes();
            assert(spec_ecc_bytes(ecc) =~= data@.subrange(0, 12));
        }
        Ok(ecc)
    }

    /// Whether `data` has the recorded length and checksum.
    pub fn validate(&self, data: &[u8]) -> (r: bool)
        ensures
            r == (data@.len() == self.data_length && crc32_of(data@) == self.crc32),
    {
        if data.len() as u64 != self.data_length as u64 {
            return false;
        }
        compute_crc32(data) == self.crc32
    }
}

/// Pass data through its checksum record: a copy when it validates,
/// an error when corruption is detected.
pub fn apply_error_correction(data: &[u8], ecc: &ErrorCorrectionCode) -> (r: Result<
    Vec<u8>,
    AgentError,
>)
    ensures
        r is Ok <==> (data@.len() == ecc.data_length && crc32_of(data@) == ecc.crc32),
        r is Ok ==> r.unwrap()@ == data@,
        r is Err ==> r.unwrap_err() == AgentError::ChecksumMismatch,
{
    if ecc.validate(data) {
        Ok(vstd::slice::slice_to_vec(data))
    } else {
        Err(AgentError::ChecksumMismatch)
    }
}

} // verus!
