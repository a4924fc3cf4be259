use vstd::prelude::*;

verus! {

/// Why a serialization call was abandoned. Every error is final for the call
/// that met it.
#[derive(Clone, Copy, Debug, PartialEq, Eq, Structural)]
pub enum JcsError {
    /// A NaN or an infinity was offered as a number.
    NonFiniteNumber,
    /// A number given as text does not read as a double.
    UnparsableNumberText,
    /// A raw, already rendered fragment was offered.
    RawFragmentUnsupported,
    /// The escaped token of an object key does not decode to text.
    InvalidKeyEncoding,
    /// A closing event arrived without its opening event.
    StructuralMismatch,
}

} // verus!
