use vstd::prelude::*;

verus! {

/// A frame was found on the wire but its body is not a valid COBS block.
#[derive(Debug, Clone, Copy, PartialEq, Eq, Structural)]
pub struct DecodeError;

/// Failure of the sending side.
#[derive(Debug, Clone, Copy, PartialEq, Eq, Structural)]
pub enum TransportError {
    /// The ring buffer cannot take the whole frame at this moment.
    InsufficientSpace,
}

} // verus!
