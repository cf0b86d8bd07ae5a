//! Setup parameters for the serial bus.

use vstd::prelude::*;

verus! {

/// Level of the clock line while no transfer runs.
#[derive(Clone, Copy, PartialEq, Eq, Structural, Debug)]
pub enum Polarity {
    /// The clock rests low.
    IdleLow,
    /// The clock rests high.
    IdleHigh,
}

/// The clock edge on which data is captured.
#[derive(Clone, Copy, PartialEq, Eq, Structural, Debug)]
pub enum Phase {
    /// Data is captured on the first edge of a clock pulse.
    CaptureOnFirstTransition,
    /// Data is captured on the second edge of a clock pulse.
    CaptureOnSecondTransition,
}

/// Clock polarity and phase of a serial bus.
#[derive(Clone, Copy, PartialEq, Eq, Structural, Debug)]
pub struct Mode {
    pub polarity: Polarity,
    pub phase: Phase,
}

/// The bus mode that the chip speaks: clock idle low, data captured on the
/// first edge (mode 0).
pub fn spi_mode() -> (mode: Mode)
    ensures
        mode == (Mode { polarity: Polarity::IdleLow, phase: Phase::CaptureOnFirstTransition }),
{
    Mode { polarity: Polarity::IdleLow, phase: Phase::CaptureOnFirstTransition }
}

/// Recommended bus clock in MHz. Use as rough guidance.
pub fn clock_mhz() -> (mhz: u32)
    ensures
        mhz == 8,
{
    8
}

} // verus!
