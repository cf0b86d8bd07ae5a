//! The transport: what the driver needs from the platform, and the
//! interface that the operating modes are written against.

use crate::command::{read_frame, write_frame, Command, MAX_FRAME_BYTES};
use crate::error::Error;
use crate::registers::{Config, Register, Status};
use crate::trace::{
    aborted, broke_off, completed, completed_at, exchanged_all, extends_by, failed_at, last_reply,
    lemma_grown_keeps, lemma_grown_twice, lemma_ran_one_more, lemma_ran_then_failed, reply_at,
    Event,
};
use vstd::prelude::*;

verus! {

/// A digital output line, such as CE or CSN.
pub trait DigitalOutput {
    /// Why the line could not be driven.
    type Error;

    /// Drives the line high.
    fn set_high(&mut self) -> (r: Result<(), Self::Error>);

    /// Drives the line low.
    fn set_low(&mut self) -> (r: Result<(), Self::Error>);
}

/// A full-duplex serial bus.
pub trait FullDuplex {
    /// Why a transfer failed.
    type Error;

    /// Clocks out the first `len` bytes of `buf` and replaces them, one for
    /// one, by the bytes clocked in meanwhile. What lies behind them in
    /// `buf` is of no account.
    fn transfer(&mut self, buf: &mut [u8; MAX_FRAME_BYTES], len: usize) -> (r: Result<
        (),
        Self::Error,
    >)
        requires
            1 <= len <= MAX_FRAME_BYTES,
    ;
}

/// Something that can let time pass.
pub trait Delay {
    /// Returns after at least `micros` microseconds.
    fn delay_us(&mut self, micros: u32);

    /// Returns after at least `millis` milliseconds.
    fn delay_ms(&mut self, millis: u32);
}

/// A register reads back as it was written: where a read returns, behind
/// any status byte, the bytes that the write of `register` clocked out,
/// and they are as many as a read takes, the register that is read is
/// `register`.
pub proof fn lemma_written_reads_back<R: Register>(register: R, status: u8)
    requires
        register.wf(),
        register.bytes().len() == R::read_width(),
    ensures
        write_frame(register)[0] == 0x20u8 | read_frame::<R>()[0],
        register_in::<R>(seq![status] + write_frame(register).skip(1)) == register,
{
    register.lemma_round_trip();
    assert((seq![status] + write_frame(register).skip(1)).skip(1) =~= register.bytes());
}

/// The register value that a reply to a read carries behind the status
/// byte.
pub open spec fn register_in<R: Register>(reply: Seq<u8>) -> R {
    R::parse(reply.skip(1))
}

/// The status that a reply starts with.
pub open spec fn status_in(reply: Seq<u8>) -> Status {
    Status(reply[0])
}

/// The chip as the operating modes see it: the CE line, exchanges of
/// commands, and a shadow of the CONFIG register.
pub trait Device: Sized {
    /// Why a transfer on the bus underneath failed.
    type Error;

    /// Everything the device has done on its lines and bus so far.
    spec fn trace(&self) -> Seq<Event>;

    /// The shadow of CONFIG: the value that the device last wrote to it
    /// through [`Device::update_config`].
    spec fn config(&self) -> Config;

    /// Drives CE high.
    fn ce_enable(&mut self)
        ensures
            final(self).trace() == old(self).trace().push(Event::CeHigh),
            final(self).config() == old(self).config(),
    ;

    /// Drives CE low.
    fn ce_disable(&mut self)
        ensures
            final(self).trace() == old(self).trace().push(Event::CeLow),
            final(self).config() == old(self).config(),
    ;

    /// Runs `f` with CE low and raises CE afterwards: receiving as well as
    /// sending must stop for what `f` does.
    fn with_ce_disabled<F, R>(&mut self, f: F) -> (r: R) where F: FnOnce(&mut Self) -> R
        requires
            forall|device: &mut Self| f.requires((device,)),
        ensures
            exists|device: &mut Self|
                {
                    &&& (*device).trace() == old(self).trace().push(Event::CeLow)
                    &&& (*device).config() == old(self).config()
                    &&& #[trigger] f.ensures((device,), r)
                    &&& final(self).trace() == (*final(device)).trace().push(Event::CeHigh)
                    &&& final(self).config() == (*final(device)).config()
                },
    {
        self.ce_disable();
        let r = f(self);
        self.ce_enable();
        r
    }

    /// Performs one exchange: the command's frame goes out between CSN low
    /// and CSN high, and the reply is read as the status and the command's
    /// response. Where the bus fails, CSN is raised all the same and the
    /// bus's error is returned.
    fn send_command<C: Command>(&mut self, command: &C) -> (r: Result<
        (Status, C::Response),
        Error<Self::Error>,
    >)
        requires
            command.wf(),
        ensures
            final(self).config() == old(self).config(),
            match r {
                Ok((status, response)) => {
                    &&& completed(old(self).trace(), final(self).trace(), command.frame())
                    &&& status == status_in(last_reply(final(self).trace()))
                    &&& C::decodes_to(last_reply(final(self).trace()), response)
                },
                Err(e) => {
                    &&& aborted(old(self).trace(), final(self).trace(), command.frame())
                    &&& e is SpiError
                },
            },
    ;

    /// Writes a register in one exchange.
    fn write_register<R: Register>(&mut self, register: R) -> (r: Result<
        Status,
        Error<Self::Error>,
    >)
        requires
            register.wf(),
        ensures
            final(self).config() == old(self).config(),
            match r {
                Ok(status) => {
                    &&& completed(old(self).trace(), final(self).trace(), write_frame(register))
                    &&& status == status_in(last_reply(final(self).trace()))
                },
                Err(e) => {
                    &&& aborted(old(self).trace(), final(self).trace(), write_frame(register))
                    &&& e is SpiError
                },
            },
    ;

    /// Reads a register in one exchange.
    fn read_register<R: Register>(&mut self) -> (r: Result<(Status, R), Error<Self::Error>>)
        ensures
            final(self).config() == old(self).config(),
            match r {
                Ok((status, register)) => {
                    &&& completed(old(self).trace(), final(self).trace(), read_frame::<R>())
                    &&& status == status_in(last_reply(final(self).trace()))
                    &&& register == register_in::<R>(last_reply(final(self).trace()))
                    &&& register.wf()
                },
                Err(e) => {
                    &&& aborted(old(self).trace(), final(self).trace(), read_frame::<R>())
                    &&& e is SpiError
                },
            },
    ;

    /// Changes a register other than CONFIG: reads it, applies `f` to what
    /// was read, and writes the result back only where it differs from what
    /// was read.
    fn update_register<Reg, F, R>(&mut self, f: F) -> (r: Result<R, Error<Self::Error>>) where
        Reg: Register + Copy,
        F: FnOnce(&mut Reg) -> R,

        requires
            Reg::address() != 0x00,
            forall|held: &mut Reg| (*held).wf() ==> f.requires((held,)),
            forall|held: &mut Reg, returned: R|
                (*held).wf() && f.ensures((held,), returned) ==> (*final(held)).wf(),
        ensures
            final(self).config() == old(self).config(),
            ({
                let before = old(self).trace();
                let after = final(self).trace();
                let at = before.len() as int;
                let was = register_in::<Reg>(reply_at(after, at));
                match r {
                    Ok(result) => {
                        &&& completed_at(after, at, read_frame::<Reg>())
                        &&& exists|held: &mut Reg, returned: R|
                            {
                                &&& *held == was
                                &&& #[trigger] f.ensures((held,), returned)
                                &&& returned == result
                                &&& if *final(held) == was {
                                    extends_by(before, after, 3)
                                } else {
                                    &&& extends_by(before, after, 6)
                                    &&& completed_at(after, at + 3, write_frame(*final(held)))
                                }
                            }
                    },
                    Err(e) => {
                        &&& e is SpiError
                        &&& {
                            ||| aborted(before, after, read_frame::<Reg>())
                            ||| {
                                &&& extends_by(before, after, 6)
                                &&& completed_at(after, at, read_frame::<Reg>())
                                &&& exists|held: &mut Reg, returned: R|
                                    {
                                        &&& *held == was
                                        &&& #[trigger] f.ensures((held,), returned)
                                        &&& *final(held) != was
                                        &&& failed_at(after, at + 3, write_frame(*final(held)))
                                    }
                            }
                        }
                    },
                }
            }),
    {
        let ghost before = self.trace();
        let old_register: Reg = match self.read_register::<Reg>() {
            Ok((_, register)) => register,
            Err(e) => {
                return Err(e);
            },
        };
        let ghost read = self.trace();
        let mut register = old_register;
        let result = f(&mut register);

        if !register.same_as(&old_register) {
            match self.write_register(register) {
                Ok(_) => {},
                Err(e) => {
                    proof {
                        lemma_grown_twice(before, read, self.trace(), 3, 3);
                        lemma_grown_keeps(read, self.trace(), 3, before.len() as int);
                    }
                    return Err(e);
                },
            }
            proof {
                lemma_grown_twice(before, read, self.trace(), 3, 3);
                lemma_grown_keeps(read, self.trace(), 3, before.len() as int);
            }
        }
        Ok(result)
    }

    /// Changes the CONFIG register: `f` is applied to the shadow, and the
    /// result is written to the chip only where it differs from the shadow.
    /// Where the write fails the shadow stays as it was.
    fn update_config<F, R>(&mut self, f: F) -> (r: Result<R, Error<Self::Error>>) where
        F: FnOnce(&mut Config) -> R,

        requires
            forall|shadow: &mut Config| *shadow == old(self).config() ==> f.requires((shadow,)),
        ensures
            ({
                let was = old(self).config();
                let now = final(self).config();
                let before = old(self).trace();
                let after = final(self).trace();
                match r {
                    Ok(result) => {
                        &&& exists|shadow: &mut Config, returned: R|
                            {
                                &&& *shadow == was
                                &&& #[trigger] f.ensures((shadow,), returned)
                                &&& *final(shadow) == now
                                &&& returned == result
                            }
                        &&& if now == was {
                            after == before
                        } else {
                            completed(before, after, write_frame(now))
                        }
                    },
                    Err(e) => {
                        &&& now == was
                        &&& e is SpiError
                        &&& exists|shadow: &mut Config, returned: R|
                            {
                                &&& *shadow == was
                                &&& #[trigger] f.ensures((shadow,), returned)
                                &&& *final(shadow) != was
                                &&& aborted(before, after, write_frame(*final(shadow)))
                            }
                    },
                }
            }),
    ;
}

/// Writes `register` as step `k` of `script`, of which the steps before it
/// have been run since the trace was `start`.
pub(crate) fn write_step<D: Device, R: Register>(
    device: &mut D,
    register: R,
    Ghost(start): Ghost<Seq<Event>>,
    Ghost(script): Ghost<Seq<Seq<u8>>>,
    Ghost(k): Ghost<int>,
) -> (r: Result<(), Error<D::Error>>)
    requires
        register.wf(),
        0 <= k < script.len(),
        script[k] == write_frame(register),
        exchanged_all(start, old(device).trace(), script.subrange(0, k)),
    ensures
        final(device).config() == old(device).config(),
        match r {
            Ok(_) => exchanged_all(start, final(device).trace(), script.subrange(0, k + 1)),
            Err(e) => e is SpiError && broke_off(start, final(device).trace(), script),
        },
{
    let ghost reached = device.trace();
    let r = device.write_register(register);
    proof {
        let done = script.subrange(0, k);
        assert(script.subrange(0, done.len() as int) =~= done);
        match r {
            Ok(_) => {
                lemma_ran_one_more(start, reached, device.trace(), done, write_frame(register));
                assert(done.push(write_frame(register)) =~= script.subrange(0, k + 1));
            },
            Err(_) => {
                lemma_ran_then_failed(
                    start,
                    reached,
                    device.trace(),
                    done,
                    write_frame(register),
                    script,
                );
            },
        }
    }
    match r {
        Ok(_) => Ok(()),
        Err(e) => Err(e),
    }
}

} // verus!
