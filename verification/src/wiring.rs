//! The two lines and the bus, with the record of what was done on them.
//!
//! This is the one place where the trace grows: each method makes one call
//! to a line, the bus or the timer and appends the event that stands for
//! the call.

use crate::ce::{CEPin, Level};
use crate::command::MAX_FRAME_BYTES;
use crate::device::{Delay, DigitalOutput, FullDuplex};
use crate::trace::Event;
use vstd::prelude::*;

verus! {

/// A failure of one of the two lines.
#[derive(Debug, PartialEq, Eq)]
pub enum LineFault<CE, CSN> {
    /// The CE line could not be driven.
    Ce(CE),
    /// The CSN line could not be driven.
    Csn(CSN),
}

/// The CE line, the CSN line and the bus of one chip, and the trace of what
/// has been done on them.
///
/// The chip gives a change of CE or CSN no answer, and the calls of the
/// driver that change them return none. A line that fails is therefore not
/// taken for a failure of the call: the first failure is kept aside, for
/// the caller to take when it wants to know.
pub struct Wiring<CE: DigitalOutput, CSN: DigitalOutput, SPI> {
    ce: CEPin<CE>,
    csn: CSN,
    spi: SPI,
    fault: Option<LineFault<CE::Error, CSN::Error>>,
    trace: Ghost<Seq<Event>>,
}

/// Whether `after` is what is kept aside once a line was driven, where
/// `before` was kept aside before: a failure that is kept stays, and where
/// none is kept afterwards none was kept before.
pub open spec fn first_kept<CE, CSN>(
    before: Option<LineFault<CE, CSN>>,
    after: Option<LineFault<CE, CSN>>,
) -> bool {
    &&& before is Some ==> after == before
    &&& after is None ==> before is None
}

impl<CE: DigitalOutput, CSN: DigitalOutput, SPI: FullDuplex> Wiring<CE, CSN, SPI> {
    /// Every call made to the lines and the bus so far.
    pub closed spec fn trace(&self) -> Seq<Event> {
        self.trace@
    }

    /// The level that CE was last driven to without a failure.
    pub closed spec fn ce_level(&self) -> Level {
        self.ce.level()
    }

    /// The first failure of a line since one was last taken.
    pub closed spec fn line_fault(&self) -> Option<LineFault<CE::Error, CSN::Error>> {
        self.fault
    }

    /// Takes over the lines and the bus, on which nothing has been done
    /// yet.
    pub fn new(ce: CE, csn: CSN, spi: SPI) -> (wiring: Self)
        ensures
            wiring.trace() == Seq::<Event>::empty(),
            wiring.ce_level() == Level::Low,
            wiring.line_fault() is None,
    {
        Wiring { ce: CEPin::new(ce), csn, spi, fault: None, trace: Ghost(Seq::empty()) }
    }

    /// Keeps a failure aside, unless one is kept already.
    fn keep(&mut self, fault: LineFault<CE::Error, CSN::Error>)
        ensures
            final(self).trace() == old(self).trace(),
            final(self).ce_level() == old(self).ce_level(),
            final(self).line_fault() == (if old(self).line_fault() is Some {
                old(self).line_fault()
            } else {
                Some(fault)
            }),
    {
        if self.fault.is_none() {
            self.fault = Some(fault);
        }
    }

    /// Hands out the first failure of a line since the last call, if there
    /// was one.
    pub fn take_line_fault(&mut self) -> (fault: Option<LineFault<CE::Error, CSN::Error>>)
        ensures
            fault == old(self).line_fault(),
            final(self).line_fault() is None,
            final(self).trace() == old(self).trace(),
            final(self).ce_level() == old(self).ce_level(),
    {
        self.fault.take()
    }

    /// Drives CE high.
    pub fn ce_high(&mut self)
        ensures
            final(self).trace() == old(self).trace().push(Event::CeHigh),
            first_kept(old(self).line_fault(), final(self).line_fault()),
            final(self).line_fault() is None ==> final(self).ce_level() == Level::High,
    {
        let driven = self.ce.up();
        proof {
            self.trace@ = self.trace@.push(Event::CeHigh);
        }
        match driven {
            Ok(_) => {},
            Err(e) => {
                self.keep(LineFault::Ce(e));
            },
        }
    }

    /// Drives CE low.
    pub fn ce_low(&mut self)
        ensures
            final(self).trace() == old(self).trace().push(Event::CeLow),
            first_kept(old(self).line_fault(), final(self).line_fault()),
            final(self).line_fault() is None ==> final(self).ce_level() == Level::Low,
    {
        let driven = self.ce.down();
        proof {
            self.trace@ = self.trace@.push(Event::CeLow);
        }
        match driven {
            Ok(_) => {},
            Err(e) => {
                self.keep(LineFault::Ce(e));
            },
        }
    }

    /// Whether CE was last driven high.
    pub fn ce_is_high(&self) -> (high: bool)
        ensures
            high == (self.ce_level() == Level::High),
    {
        self.ce.is_high()
    }

    /// Drives CSN low, which begins an exchange.
    pub fn select(&mut self)
        ensures
            final(self).trace() == old(self).trace().push(Event::CsnLow),
            final(self).ce_level() == old(self).ce_level(),
            first_kept(old(self).line_fault(), final(self).line_fault()),
    {
        let driven = self.csn.set_low();
        proof {
            self.trace@ = self.trace@.push(Event::CsnLow);
        }
        match driven {
            Ok(_) => {},
            Err(e) => {
                self.keep(LineFault::Csn(e));
            },
        }
    }

    /// Drives CSN high, which ends an exchange.
    pub fn deselect(&mut self)
        ensures
            final(self).trace() == old(self).trace().push(Event::CsnHigh),
            final(self).ce_level() == old(self).ce_level(),
            first_kept(old(self).line_fault(), final(self).line_fault()),
    {
        let driven = self.csn.set_high();
        proof {
            self.trace@ = self.trace@.push(Event::CsnHigh);
        }
        match driven {
            Ok(_) => {},
            Err(e) => {
                self.keep(LineFault::Csn(e));
            },
        }
    }

    /// Runs one transfer of the first `len` bytes of `buf`.
    pub fn transfer(&mut self, buf: &mut [u8; MAX_FRAME_BYTES], len: usize) -> (r: Result<
        (),
        SPI::Error,
    >)
        requires
            1 <= len <= MAX_FRAME_BYTES,
        ensures
            final(self).ce_level() == old(self).ce_level(),
            final(self).line_fault() == old(self).line_fault(),
            final(self).trace() == old(self).trace().push(
                match r {
                    Ok(_) => Event::Transfer {
                        sent: old(buf)@.subrange(0, len as int),
                        received: final(buf)@.subrange(0, len as int),
                    },
                    Err(_) => Event::TransferFailed { sent: old(buf)@.subrange(0, len as int) },
                },
            ),
    {
        let ghost sent = buf@.subrange(0, len as int);
        let r = self.spi.transfer(buf, len);
        proof {
            self.trace@ = self.trace@.push(
                match r {
                    Ok(_) => Event::Transfer { sent, received: buf@.subrange(0, len as int) },
                    Err(_) => Event::TransferFailed { sent },
                },
            );
        }
        r
    }

    /// Lets `micros` microseconds pass.
    pub fn pause_us<T: Delay>(&mut self, timer: &mut T, micros: u32)
        ensures
            final(self).trace() == old(self).trace().push(Event::Pause { micros: micros as nat }),
            final(self).ce_level() == old(self).ce_level(),
            final(self).line_fault() == old(self).line_fault(),
    {
        timer.delay_us(micros);
        proof {
            self.trace@ = self.trace@.push(Event::Pause { micros: micros as nat });
        }
    }

    /// Lets `millis` milliseconds pass.
    pub fn pause_ms<T: Delay>(&mut self, timer: &mut T, millis: u32)
        ensures
            final(self).trace() == old(self).trace().push(
                Event::Pause { micros: millis as nat * 1000 },
            ),
            final(self).ce_level() == old(self).ce_level(),
            final(self).line_fault() == old(self).line_fault(),
    {
        timer.delay_ms(millis);
        proof {
            self.trace@ = self.trace@.push(Event::Pause { micros: millis as nat * 1000 });
        }
    }
}

} // verus!
