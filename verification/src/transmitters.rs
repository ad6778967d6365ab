//! Transmitters, as far as they can be described.

use crate::format::TransmitterId;
use vstd::prelude::*;

verus! {

/// What a transmitter sends.
#[derive(Debug, Clone, Copy, PartialEq, Eq, Hash, Structural)]
pub struct TxDescriptor {
    pub channels: usize,
    pub id: TransmitterId,
}

impl TxDescriptor {
    pub fn new(id: TransmitterId, channels: usize) -> (desc: TxDescriptor)
        ensures
            desc == (TxDescriptor { channels, id }),
    {
        TxDescriptor { channels, id }
    }
}

} // verus!
