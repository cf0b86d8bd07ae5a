//! The chip-enable line, with a memory of its level.

use crate::device::DigitalOutput;
use vstd::prelude::*;

verus! {

/// The level of a digital line.
#[derive(Clone, Copy, PartialEq, Eq, Structural, Debug)]
pub enum Level {
    Low,
    High,
}

/// The CE line together with the level it was last driven to, and one
/// level kept aside to come back to.
pub struct CEPin<T> {
    output: T,
    value: Level,
    saved_value: Level,
}

impl<T: DigitalOutput> CEPin<T> {
    /// The level that the line was last driven to.
    pub closed spec fn level(&self) -> Level {
        self.value
    }

    /// The level that [`CEPin::save_state`] last kept aside.
    pub closed spec fn saved(&self) -> Level {
        self.saved_value
    }

    /// Takes over a line that is low, without touching it.
    pub fn new(output: T) -> (pin: Self)
        ensures
            pin.level() == Level::Low,
            pin.saved() == Level::Low,
    {
        CEPin { output, value: Level::Low, saved_value: Level::Low }
    }

    /// Drives the line high. Where the line fails, its level counts as
    /// unchanged.
    pub fn up(&mut self) -> (r: Result<(), T::Error>)
        ensures
            final(self).level() == (if r is Ok {
                Level::High
            } else {
                old(self).level()
            }),
            final(self).saved() == old(self).saved(),
    {
        match self.output.set_high() {
            Ok(_) => {},
            Err(e) => {
                return Err(e);
            },
        }
        self.value = Level::High;
        Ok(())
    }

    /// Drives the line low. Where the line fails, its level counts as
    /// unchanged.
    pub fn down(&mut self) -> (r: Result<(), T::Error>)
        ensures
            final(self).level() == (if r is Ok {
                Level::Low
            } else {
                old(self).level()
            }),
            final(self).saved() == old(self).saved(),
    {
        match self.output.set_low() {
            Ok(_) => {},
            Err(e) => {
                return Err(e);
            },
        }
        self.value = Level::Low;
        Ok(())
    }

    /// Keeps the present level aside.
    pub fn save_state(&mut self)
        ensures
            final(self).saved() == old(self).level(),
            final(self).level() == old(self).level(),
    {
        self.saved_value = self.value;
    }

    /// Drives the line to the level kept aside. Where the line fails, its
    /// level counts as unchanged.
    pub fn restore_state(&mut self) -> (r: Result<(), T::Error>)
        ensures
            final(self).level() == (if r is Ok {
                old(self).saved()
            } else {
                old(self).level()
            }),
            final(self).saved() == old(self).saved(),
    {
        match self.saved_value {
            Level::High => {
                match self.output.set_high() {
                    Ok(_) => {},
                    Err(e) => {
                        return Err(e);
                    },
                }
            },
            Level::Low => {
                match self.output.set_low() {
                    Ok(_) => {},
                    Err(e) => {
                        return Err(e);
                    },
                }
            },
        }
        self.value = self.saved_value;
        Ok(())
    }

    /// Whether the line was last driven high.
    pub fn is_high(&self) -> (high: bool)
        ensures
            high == (self.level() == Level::High),
    {
        self.value == Level::High
    }
}

} // verus!
