use vstd::prelude::*;

verus! {

/// The failure taxonomy of the library.
///
/// Every fallible operation reports exactly one of these variants; no
/// failure is silently defaulted.
#[derive(Clone, Copy, Debug, PartialEq, Eq, Structural)]
pub enum NoiseError {
    /// The weights handed to a combined generator sum to zero.
    InvalidWeights,
    /// A coordinate or slice index lies outside the buffer's dimensions.
    IndexOutOfRange,
    /// A save or load path does not end in the required file extension.
    InvalidExtension,
    /// Fewer bytes are available than the declared dimensions require.
    TruncatedFile,
    /// An underlying read or write failed.
    IoError,
}

} // verus!
