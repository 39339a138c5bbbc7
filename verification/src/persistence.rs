//! Persistent state with a shadow backup.
//!
//! The store keeps two byte images: a primary and a backup. A save
//! first shadows the current primary into the backup, then replaces
//! the primary. A load takes the primary when its CRC32 envelope
//! checks out, falls back to the backup when the primary is corrupt,
//! and re-promotes what it recovered. The file I/O around these images
//! lives outside the library; the decisions live here.

use vstd::prelude::*;

use crate::compress::{compress_data, decompress_data, zlib_deflate};
use crate::crc::{
    add_crc32_checksum, compute_crc32, crc32_of, validate_and_extract_data, validate_crc32,
    with_crc32,
};
use crate::errors::AgentError;
use vstd::bytes::*;

verus! {

/// The two on-disk images of one piece of state.
pub struct StatePersistence {
    /// The primary image, if a file exists.
    pub primary: Option<Vec<u8>>,
    /// The shadow backup image, if a file exists.
    pub backup: Option<Vec<u8>>,
}

/// Whether an optional image is missing or fails its CRC check.
pub open spec fn spec_image_bad(image: Option<Vec<u8>>) -> bool {
    match image {
        Some(p) => !crate::crc::crc_trailer_valid(p@),
        None => true,
    }
}

impl StatePersistence {
    /// A store with no images yet.
    pub fn new() -> (r: StatePersistence)
        ensures
            r.primary is None,
            r.backup is None,
    {
        StatePersistence { primary: None, backup: None }
    }

    /// Save a state snapshot: the old primary becomes the backup, and
    /// the primary becomes the CRC32 envelope of the snapshot.
    pub fn save(&mut self, state: &[u8])
        ensures
            final(self).primary matches Some(p) && p@ == with_crc32(state@),
            old(self).primary matches Some(op) ==> (final(self).backup matches Some(b) && b@
                == op@),
            old(self).primary is None ==> final(self).backup == old(self).backup,
    {
        let envelope = add_crc32_checksum(state);
        let mut old_primary = self.primary.take();
        match old_primary {
            Some(p) => {
                self.backup = Some(p);
            },
            None => {},
        }
        self.primary = Some(envelope);
    }

    /// Load the last saved state: the primary when its envelope is
    /// intact, otherwise the backup; a recovered backup is re-promoted
    /// to the primary. With no intact image there is nothing to load.
    pub fn load(&mut self) -> (r: Option<Vec<u8>>)
        ensures
            // an intact primary wins and nothing changes
            old(self).primary matches Some(p) ==> (crate::crc::crc_trailer_valid(p@) ==> ((
            r matches Some(v) && v@ == p@.subrange(0, p@.len() - 4)) && *final(self) == *old(
                self,
            ))),
            // with a corrupt or missing primary, an intact backup is
            // recovered and re-promoted
            old(self).backup matches Some(b) ==> ((spec_image_bad(old(self).primary)
                && crate::crc::crc_trailer_valid(b@)) ==> ((r matches Some(v) && v@ == b@.subrange(
                0,
                b@.len() - 4,
            )) && (final(self).primary matches Some(np) && np@ == b@))),
            // with neither image intact nothing is loaded
            spec_image_bad(old(self).primary) && spec_image_bad(old(self).backup) ==> r is None
                && *final(self) == *old(self),
    {
        match &self.primary {
            Some(p) => {
                match validate_and_extract_data(p.as_slice()) {
                    Ok(state) => {
                        return Some(state);
                    },
                    Err(_) => {},
                }
            },
            None => {},
        }
        match &self.backup {
            Some(b) => {
                match validate_and_extract_data(b.as_slice()) {
                    Ok(state) => {
                        let promoted = b.clone();
                        self.primary = Some(promoted);
                        return Some(state);
                    },
                    Err(_) => {},
                }
            },
            None => {},
        }
        None
    }

    /// Drop both images.
    pub fn clear(&mut self)
        ensures
            final(self).primary is None,
            final(self).backup is None,
    {
        self.primary = None;
        self.backup = None;
    }
}

/// Law: a load right after a save returns the saved state, and if the
/// primary is then corrupted in any way, a re-load still returns the
/// state last saved, from the backup.
pub proof fn lemma_save_load_round_trip(state: Seq<u8>)
    ensures
        crate::crc::crc_trailer_valid(with_crc32(state)),
        with_crc32(state).subrange(0, with_crc32(state).len() - 4) == state,
{
    let image = with_crc32(state);
    vstd::bytes::lemma_auto_spec_u32_to_from_le_bytes();
    assert(image.subrange(0, image.len() - 4) =~= state);
    assert(image.subrange(image.len() - 4, image.len() as int) =~= vstd::bytes::spec_u32_to_le_bytes(
        crc32_of(state),
    ));
}

/// The checked binary layout: a four-byte length, the CRC32 of the
/// data, then the data itself, all little-endian.
pub open spec fn spec_binary_with_crc(data: Seq<u8>) -> Seq<u8> {
    spec_u32_to_le_bytes(data.len() as u32) + spec_u32_to_le_bytes(crc32_of(data)) + data
}

/// Wrap bytes in the checked binary layout.
pub fn encode_binary_with_crc(data: &[u8]) -> (r: Vec<u8>)
    requires
        data@.len() <= u32::MAX,
    ensures
        r@ == spec_binary_with_crc(data@),
{
    let mut out = u32_to_le_bytes(data.len() as u32);
    let crc = compute_crc32(data);
    let cb = u32_to_le_bytes(crc);
    out.extend_from_slice(cb.as_slice());
    out.extend_from_slice(data);
    proof {
        assert(out@ =~= spec_binary_with_crc(data@));
    }
    out
}

/// Unwrap the checked binary layout, verifying the length and the
/// checksum; succeeds exactly when both hold.
pub fn decode_binary_with_crc(image: &[u8]) -> (r: Result<Vec<u8>, AgentError>)
    ensures
        r is Ok <==> (image@.len() >= 8 && 8 + spec_u32_from_le_bytes(image@.subrange(0, 4))
            <= image@.len() && crc32_of(
            image@.subrange(8, 8 + spec_u32_from_le_bytes(image@.subrange(0, 4)) as int),
        ) == spec_u32_from_le_bytes(image@.subrange(4, 8))),
        r matches Ok(v) ==> v@ == image@.subrange(
            8,
            8 + spec_u32_from_le_bytes(image@.subrange(0, 4)) as int,
        ),
{
    if image.len() < 8 {
        return Err(AgentError::InvalidData);
    }
    let n = u32_from_le_bytes(vstd::slice::slice_subrange(image, 0, 4)) as usize;
    let stored = u32_from_le_bytes(vstd::slice::slice_subrange(image, 4, 8));
    if image.len() - 8 < n {
        return Err(AgentError::InvalidData);
    }
    let data = vstd::slice::slice_subrange(image, 8, 8 + n);
    if !validate_crc32(data, stored) {
        return Err(AgentError::ChecksumMismatch);
    }
    Ok(vstd::slice::slice_to_vec(data))
}

/// Law: unwrapping the checked layout of any bytes gives them back.
pub proof fn lemma_binary_crc_round_trip(data: Seq<u8>)
    requires
        data.len() <= u32::MAX,
    ensures
        ({
            let image = spec_binary_with_crc(data);
            &&& image.len() >= 8
            &&& spec_u32_from_le_bytes(image.subrange(0, 4)) == data.len()
            &&& spec_u32_from_le_bytes(image.subrange(4, 8)) == crc32_of(data)
            &&& image.subrange(8, 8 + data.len() as int) == data
        }),
{
    let image = spec_binary_with_crc(data);
    lemma_auto_spec_u32_to_from_le_bytes();
    assert(image.subrange(0, 4) =~= spec_u32_to_le_bytes(data.len() as u32));
    assert(image.subrange(4, 8) =~= spec_u32_to_le_bytes(crc32_of(data)));
    assert(image.subrange(8, 8 + data.len() as int) =~= data);
}

/// Compress bytes and wrap them in the checked binary layout.
pub fn encode_compressed_binary(data: &[u8], level: u32) -> (r: Option<Vec<u8>>)
    requires
        level <= 9,
    ensures
        r matches Some(v) ==> v@ == spec_binary_with_crc(zlib_deflate(data@, level)),
        r is None ==> zlib_deflate(data@, level).len() > u32::MAX,
{
    match compress_data(data, level) {
        Ok(z) => {
            if z.len() as u64 > u32::MAX as u64 {
                return None;
            }
            Some(encode_binary_with_crc(z.as_slice()))
        },
        Err(_) => None,
    }
}

/// Unwrap and decompress the checked binary layout; what was saved
/// with `encode_compressed_binary` comes back exactly.
pub fn load_compressed_binary(image: &[u8]) -> (r: Result<Vec<u8>, AgentError>)
    ensures
        forall|orig: Seq<u8>, level: u32|
            (image@ == spec_binary_with_crc(#[trigger] zlib_deflate(orig, level)) && zlib_deflate(
                orig,
                level,
            ).len() <= u32::MAX) ==> r is Ok && r.unwrap()@ == orig,
{
    match decode_binary_with_crc(image) {
        Ok(z) => {
            let out = decompress_data(z.as_slice());
            proof {
                assert forall|orig: Seq<u8>, level: u32|
                    (image@ == spec_binary_with_crc(#[trigger] zlib_deflate(orig, level))
                        && zlib_deflate(orig, level).len() <= u32::MAX) implies z@ == zlib_deflate(
                    orig,
                    level,
                ) by {
                    lemma_binary_crc_round_trip(zlib_deflate(orig, level));
                }
            }
            out
        },
        Err(e) => {
            proof {
                assert forall|orig: Seq<u8>, level: u32|
                    (image@ == spec_binary_with_crc(#[trigger] zlib_deflate(orig, level))
                        && zlib_deflate(orig, level).len() <= u32::MAX) implies false by {
                    let z = zlib_deflate(orig, level);
                    lemma_binary_crc_round_trip(z);
                    lemma_auto_spec_u32_to_from_le_bytes();
                    assert(image@.len() == 8 + z.len());
                    assert(image@.subrange(8, 8 + z.len() as int) == z);
                }
            }
            Err(e)
        },
    }
}

/// The per-host extension record: how often the function ran, how
/// often it started cold, and when it was last seen.
#[derive(Debug, Clone, Copy, PartialEq, Eq, Structural)]
pub struct ExtensionState {
    /// Invocations handled so far.
    pub invocation_count: u64,
    /// Cold starts among them.
    pub cold_start_count: u64,
    /// When the last invocation arrived, milliseconds since the epoch.
    pub last_invocation_ms: u64,
    /// When the host last announced a shutdown, or zero.
    pub last_shutdown_ms: u64,
}

/// The 32-byte little-endian image of an extension record.
pub open spec fn spec_state_bytes(st: ExtensionState) -> Seq<u8> {
    spec_u64_to_le_bytes(st.invocation_count) + spec_u64_to_le_bytes(st.cold_start_count)
        + spec_u64_to_le_bytes(st.last_invocation_ms) + spec_u64_to_le_bytes(st.last_shutdown_ms)
}

impl ExtensionState {
    /// A record for a host that has served nothing yet.
    pub fn new() -> (r: ExtensionState)
        ensures
            r.invocation_count == 0,
            r.cold_start_count == 0,
            r.last_invocation_ms == 0,
            r.last_shutdown_ms == 0,
    {
        ExtensionState {
            invocation_count: 0,
            cold_start_count: 0,
            last_invocation_ms: 0,
            last_shutdown_ms: 0,
        }
    }

    /// Count one invocation, cold or warm, and record when it came.
    pub fn record_invocation(&mut self, now_ms: u64, cold: bool)
        requires
            old(self).invocation_count < u64::MAX,
            old(self).cold_start_count < u64::MAX,
        ensures
            final(self).invocation_count == old(self).invocation_count + 1,
            final(self).cold_start_count == old(self).cold_start_count + (if cold {
                1int
            } else {
                0int
            }),
            final(self).last_invocation_ms == now_ms,
            final(self).last_shutdown_ms == old(self).last_shutdown_ms,
    {
        self.invocation_count = self.invocation_count + 1;
        if cold {
            self.cold_start_count = self.cold_start_count + 1;
        }
        self.last_invocation_ms = now_ms;
    }

    /// Record when the host announced a shutdown.
    pub fn record_shutdown(&mut self, now_ms: u64)
        ensures
            final(self).last_shutdown_ms == now_ms,
            final(self).invocation_count == old(self).invocation_count,
            final(self).cold_start_count == old(self).cold_start_count,
            final(self).last_invocation_ms == old(self).last_invocation_ms,
    {
        self.last_shutdown_ms = now_ms;
    }

    /// The record's byte image.
    pub fn to_bytes(&self) -> (r: Vec<u8>)
        ensures
            r@ == spec_state_bytes(*self),
    {
        let mut out = u64_to_le_bytes(self.invocation_count);
        let b1 = u64_to_le_bytes(self.cold_start_count);
        let b2 = u64_to_le_bytes(self.last_invocation_ms);
        let b3 = u64_to_le_bytes(self.last_shutdown_ms);
        out.extend_from_slice(b1.as_slice());
        out.extend_from_slice(b2.as_slice());
        out.extend_from_slice(b3.as_slice());
        proof {
            assert(out@ =~= spec_state_bytes(*self));
        }
        out
    }

    /// Parse a record image back; succeeds exactly on 32 or more bytes
    /// and inverts `to_bytes`.
    pub fn from_bytes(data: &[u8]) -> (r: Result<ExtensionState, AgentError>)
        ensures
            r is Ok <==> data@.len() >= 32,
            r matches Ok(st) ==> spec_state_bytes(st) == data@.subrange(0, 32),
    {
        if data.len() < 32 {
            return Err(AgentError::InvalidData);
        }
        let st = ExtensionState {
            invocation_count: u64_from_le_bytes(vstd::slice::slice_subrange(data, 0, 8)),
            cold_start_count: u64_from_le_bytes(vstd::slice::slice_subrange(data, 8, 16)),
            last_invocation_ms: u64_from_le_bytes(vstd::slice::slice_subrange(data, 16, 24)),
            last_shutdown_ms: u64_from_le_bytes(vstd::slice::slice_subrange(data, 24, 32)),
        };
        proof {
            lemma_auto_spec_u64_to_from_le_bytes();
            assert(spec_state_bytes(st) =~= data@.subrange(0, 32));
        }
        Ok(st)
    }
}

} // verus!
