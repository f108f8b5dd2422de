//! The ways a generation run can fail.
use vstd::prelude::*;

verus! {

/// Why a generation run stopped. Every error ends the run.
#[derive(PartialEq, Eq, Structural, Clone, Copy, Debug)]
pub enum Error {
    /// The host reflection layer failed to report metadata.
    Game,
    /// An output file could not be created or written.
    File,
    /// A text formatter failed.
    Fmt,
    /// A property whose element size times array dimension is 0.
    ZeroSizedField,
    /// A bitfield whose storage word is not 1, 2, 4 or 8 bytes wide.
    BadBitfieldSize(u8),
    /// A bitfield member with no open bitfield word to join; planning never
    /// yields it.
    LastBitfield,
    /// More packages than the registry holds.
    MaxPackages,
    /// More bitfield storage words in one struct than allowed.
    MaxBitfields,
    /// More members in one bitfield storage word than allowed.
    BitfieldFull,
    /// More parameters in one function than allowed.
    MaxParameters,
}

} // verus!
