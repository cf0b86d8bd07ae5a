//! What can go wrong.

use vstd::prelude::*;

verus! {

/// The ways in which an operation of the driver fails. `SPIE` is the error
/// of the bus underneath.
#[derive(Debug, PartialEq, Eq)]
pub enum Error<SPIE> {
    /// A transfer on the bus failed. It is handed on as it came and never
    /// tried again.
    SpiError(SPIE),
    /// The chip did not answer like an nRF24L01 when the driver was set up.
    NotConnected,
    /// The transmit queue is full; the payload was not queued.
    QueueFull,
    /// The payload is longer than 32 bytes; nothing was put on the bus.
    PayloadTooLarge,
    /// The pipe number is not one of 0 to 5.
    InvalidPipe,
    /// The packet at the head of the transmit queue was sent as often as
    /// configured and never acknowledged.
    MaxRetransmitsExceeded,
}

impl<SPIE> Error<SPIE> {
    /// Wraps an error of the bus.
    pub fn from(e: SPIE) -> (error: Self)
        ensures
            error == Error::SpiError(e),
    {
        Error::SpiError(e)
    }
}

} // verus!
