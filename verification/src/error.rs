//! Rejected configurations.

use vstd::prelude::*;

verus! {

/// Why a configuration was rejected.
#[derive(Debug, Clone, Copy, PartialEq, Eq, Structural)]
pub enum ConfigError {
    /// The number of command-line arguments is out of range.
    ArgumentCount,
    /// The chunk size is not a decimal number that fits the machine word.
    InvalidRateChunk,
    /// The pause between chunks is not a decimal number of milliseconds.
    InvalidRateTime,
    /// The port is not a decimal number between 0 and 65535.
    InvalidPort,
    /// The repeat flag is neither `true` nor `false`.
    InvalidRepeat,
    /// The byte cap is not a decimal number that fits the machine word.
    InvalidMaxBytes,
    /// The chunk size is zero.
    ZeroChunkSize,
    /// The byte cap is zero.
    ZeroMaxBytes,
}

} // verus!
