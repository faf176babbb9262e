use vstd::prelude::*;

verus! {

/// Errors that can arise from PCM operations.
#[derive(Debug, Clone, Copy, PartialEq, Eq, Structural)]
pub enum Error {
    /// The byte buffer has an odd length. L16 mono uses 2 bytes per sample,
    /// so an odd byte count cannot represent valid PCM data.
    ByteLengthNotEven,
}

} // verus!
