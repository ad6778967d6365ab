//! Durations in milliseconds that the library carries but does not compute with.

use vstd::prelude::*;

verus! {

/// A duration in milliseconds, given by the bit pattern of a single precision
/// floating point number.
#[derive(Debug, Clone, Copy, PartialEq, Eq, Structural)]
pub struct Millis {
    pub bits: u32,
}

} // verus!
