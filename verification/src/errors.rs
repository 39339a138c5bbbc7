//! Error taxonomy of the agent library.
//!
//! Recoverable failures are surfaced to callers as values of this enum;
//! each variant names one failure class of the error handling design.

use vstd::prelude::*;

verus! {

/// A recoverable error of the agent core.
#[derive(Clone, Copy, Debug, PartialEq, Eq, Structural)]
pub enum AgentError {
    /// A buffer is too short or malformed for the codec that read it.
    InvalidData,
    /// A CRC32 trailer did not match the bytes it covers.
    ChecksumMismatch,
    /// A serialized snapshot carries an unsupported version tag.
    VersionMismatch,
    /// A frame's magic bytes are not the protocol's.
    BadMagic,
    /// A compressed payload could not be inflated.
    DecompressionFailed,
    /// Decompressed or decoded bytes are not valid UTF-8 text.
    InvalidUtf8,
    /// A fixed-capacity pool has no free space left.
    PoolExhausted,
    /// A required configuration value is missing.
    MissingField,
    /// A configuration update failed validation; state is unchanged.
    InvalidConfig,
    /// The named collector is not registered.
    UnknownCollector,
    /// An on-demand trigger found the collector's channel full.
    ChannelFull,
    /// A transport gave up after exhausting its retry policy.
    TransportFailed,
}

impl AgentError {
    /// A short human-readable description of the error.
    pub fn message(&self) -> (r: &'static str)
        ensures
            r@.len() > 0,
    {
        proof {
            reveal_strlit("invalid data");
            reveal_strlit("checksum mismatch");
            reveal_strlit("unsupported version");
            reveal_strlit("bad magic bytes");
            reveal_strlit("decompression failed");
            reveal_strlit("invalid utf-8");
            reveal_strlit("pool exhausted");
            reveal_strlit("missing required field");
            reveal_strlit("invalid configuration");
            reveal_strlit("unknown collector");
            reveal_strlit("channel full");
            reveal_strlit("transport failed");
        }
        match self {
            AgentError::InvalidData => "invalid data",
            AgentError::ChecksumMismatch => "checksum mismatch",
            AgentError::VersionMismatch => "unsupported version",
            AgentError::BadMagic => "bad magic bytes",
            AgentError::DecompressionFailed => "decompression failed",
            AgentError::InvalidUtf8 => "invalid utf-8",
            AgentError::PoolExhausted => "pool exhausted",
            AgentError::MissingField => "missing required field",
            AgentError::InvalidConfig => "invalid configuration",
            AgentError::UnknownCollector => "unknown collector",
            AgentError::ChannelFull => "channel full",
            AgentError::TransportFailed => "transport failed",
        }
    }
}

} // verus!
