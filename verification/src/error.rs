//! Errors reported by the library's own checks.
use vstd::prelude::*;

verus! {

/// Errors that the protocol logic reports.
#[derive(Clone, Copy, Debug, PartialEq, Eq, Structural)]
pub enum AjazzError {
    /// The device model does not support the operation, or a value is too large to encode.
    UnsupportedOperation,
    /// A lock guarding shared device state was poisoned.
    PoisonError,
    /// The key index is not one of the device's display keys.
    InvalidKeyIndex(u8),
}

} // verus!
