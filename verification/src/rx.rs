//! Receive mode.

use crate::bits::with_bit;
use crate::command::{
    read_frame, write_frame, zeros, Command, FlushRx, ReadRxPayload, ReadRxPayloadWidth,
};
use crate::config::{all_interrupts, bus_failure, exchanged, Configuration};
use crate::device::{register_in, status_in, write_step, Device};
use crate::error::Error;
use crate::payload::{Payload, MAX_PAYLOAD_BYTES};
use crate::registers::{lemma_field_geometry, FifoStatus, Status, CD};
use crate::standby::StandbyMode;
use crate::trace::{
    aborted, completed_at, extends_by, failed_at, last_reply, lemma_grown_keeps, lemma_grown_twice,
    lemma_ran_none, lemma_ran_one_more, lemma_ran_then_failed, ran, reply_at, Event,
};
use vstd::array::array_as_slice;
use vstd::prelude::*;

verus! {

/// The chip in receive mode: CE high, listening.
pub struct RxMode<D: Device> {
    device: D,
}

/// What checking for received data puts on the wire: a write to STATUS
/// that clears all three interrupts, then a read of FIFO_STATUS.
pub open spec fn can_read_script() -> Seq<Seq<u8>> {
    seq![write_frame(all_interrupts()), read_frame::<FifoStatus>()]
}

/// The pipe that a reply to a read of FIFO_STATUS reports data for: none
/// where the register says that the receive queue is empty, else the pipe
/// number in the status byte.
pub open spec fn pipe_with_data(reply: Seq<u8>) -> Option<u8> {
    if register_in::<FifoStatus>(reply).rx_empty() {
        None
    } else {
        Some(status_in(reply).rx_p_no())
    }
}

/// Checking for received data puts the same four bytes on the wire every
/// time, and while the chip reports an empty receive queue the answer is
/// `None`: calls on a drained queue change nothing but the interrupt flags
/// that they clear.
pub proof fn lemma_drained_queue_reads_none(reply: Seq<u8>)
    requires
        register_in::<FifoStatus>(reply).rx_empty(),
    ensures
        pipe_with_data(reply) is None,
        can_read_script() == seq![seq![0x27u8, 0x70u8], seq![0x17u8, 0x00u8]],
{
    assert(0x20u8 | 0x07u8 == 0x27u8) by (bit_vector);
    assert(write_frame(all_interrupts()) =~= seq![0x27u8, 0x70u8]);
    assert(read_frame::<FifoStatus>() =~= seq![0x17u8, 0x00u8]);
    assert(can_read_script() =~= seq![seq![0x27u8, 0x70u8], seq![0x17u8, 0x00u8]]);
}

/// The frame that asks for the length of the payload at the head of the
/// receive queue.
pub open spec fn width_frame() -> Seq<u8> {
    seq![0x60u8, 0u8]
}

/// The frame that reads a payload of `width` bytes.
pub open spec fn payload_frame(width: u8) -> Seq<u8> {
    seq![0x61u8] + zeros(width as nat)
}

/// What reading a packet does and returns. The length is asked for first.
/// A length of zero gives an empty payload and nothing more is put on the
/// bus. A length above 32 is no length: the receive queue is flushed and
/// the payload is empty. Any other length is read, and the payload is what
/// was clocked in after the status byte.
pub open spec fn packet_read<E>(
    before: Seq<Event>,
    after: Seq<Event>,
    r: Result<Payload, Error<E>>,
) -> bool {
    let at = before.len() as int;
    let width = reply_at(after, at)[1];
    match r {
        Ok(payload) => {
            &&& completed_at(after, at, width_frame())
            &&& if width == 0 {
                &&& extends_by(before, after, 3)
                &&& payload@ == Seq::<u8>::empty()
            } else if width > MAX_PAYLOAD_BYTES {
                &&& extends_by(before, after, 6)
                &&& completed_at(after, at + 3, seq![0xE2u8])
                &&& payload@ == Seq::<u8>::empty()
            } else {
                &&& extends_by(before, after, 6)
                &&& completed_at(after, at + 3, payload_frame(width))
                &&& payload@ == reply_at(after, at + 3).skip(1)
            }
        },
        Err(e) => {
            &&& e is SpiError
            &&& {
                ||| aborted(before, after, width_frame())
                ||| {
                    &&& extends_by(before, after, 6)
                    &&& completed_at(after, at, width_frame())
                    &&& width != 0
                    &&& failed_at(
                        after,
                        at + 3,
                        if width > MAX_PAYLOAD_BYTES {
                            seq![0xE2u8]
                        } else {
                            payload_frame(width)
                        },
                    )
                }
            }
        },
    }
}

impl<D: Device> RxMode<D> {
    /// Takes over a chip that [`StandbyMode::rx`] has put into receive
    /// mode.
    pub(crate) fn new(device: D) -> (rx: Self)
        ensures
            rx.inner() == device,
    {
        RxMode { device }
    }

    /// Lowers CE and goes back to standby, from where the chip can be put
    /// into transmit mode.
    pub fn standby(self) -> (standby: StandbyMode<D>)
        ensures
            standby.inner().trace() == self.inner().trace().push(Event::CeLow),
            standby.inner().config() == self.inner().config(),
    {
        StandbyMode::from_rx_tx(self.device)
    }

    /// Is there any incoming data to read? Returns the pipe number.
    ///
    /// All three interrupts are cleared first, also those of the
    /// transmitter: they share one IRQ line, which would else stay
    /// asserted. More than one packet may wait, so the caller repeats the
    /// call until it returns `None` before it waits for the next
    /// interrupt.
    pub fn can_read(&mut self) -> (r: Result<Option<u8>, Error<D::Error>>)
        ensures
            final(self).inner().config() == old(self).inner().config(),
            ran(old(self).inner().trace(), final(self).inner().trace(), can_read_script(), r is Ok),
            bus_failure(r),
            r matches Ok(pipe) ==> pipe == pipe_with_data(last_reply(final(self).inner().trace())),
    {
        let ghost before = self.device.trace();
        let ghost script = can_read_script();
        let mut clear = Status(0);
        clear.set_rx_dr(true);
        clear.set_tx_ds(true);
        clear.set_max_rt(true);
        assert(with_bit(with_bit(with_bit(0, 6, true), 5, true), 4, true) == 0x70) by (bit_vector);
        proof {
            lemma_ran_none(before);
            assert(script.subrange(0, 0) =~= Seq::<Seq<u8>>::empty());
        }
        write_step(&mut self.device, clear, Ghost(before), Ghost(script), Ghost(0))?;

        let ghost cleared = self.device.trace();
        match self.device.read_register::<FifoStatus>() {
            Ok((status, fifo_status)) => {
                proof {
                    lemma_ran_one_more(
                        before,
                        cleared,
                        self.device.trace(),
                        script.subrange(0, 1),
                        read_frame::<FifoStatus>(),
                    );
                    assert(script.subrange(0, 1).push(read_frame::<FifoStatus>()) =~= script);
                    lemma_field_geometry();
                }
                if !fifo_status.rx_empty() {
                    Ok(Some(status.rx_p_no()))
                } else {
                    Ok(None)
                }
            },
            Err(e) => {
                proof {
                    assert(script.subrange(0, 1).len() == 1);
                    lemma_ran_then_failed(
                        before,
                        cleared,
                        self.device.trace(),
                        script.subrange(0, 1),
                        read_frame::<FifoStatus>(),
                        script,
                    );
                }
                Err(e)
            },
        }
    }

    /// Is an in-band RF signal detected?
    ///
    /// The chip raises the flag only after the carrier has been there for
    /// 40 microseconds (nRF24L01+) or 128 (nRF24L01).
    pub fn has_carrier(&mut self) -> (r: Result<bool, Error<D::Error>>)
        ensures
            exchanged(old(self).inner(), final(self).inner(), read_frame::<CD>(), r is Ok),
            bus_failure(r),
            r matches Ok(carrier) ==> carrier == register_in::<CD>(
                last_reply(final(self).inner().trace()),
            ).cd(),
    {
        match self.device.read_register::<CD>() {
            Ok((_, cd)) => Ok(cd.cd()),
            Err(e) => Err(e),
        }
    }

    /// Is the receive queue empty?
    pub fn is_empty(&mut self) -> (r: Result<bool, Error<D::Error>>)
        ensures
            exchanged(old(self).inner(), final(self).inner(), read_frame::<FifoStatus>(), r is Ok),
            bus_failure(r),
            r matches Ok(empty) ==> empty == register_in::<FifoStatus>(
                last_reply(final(self).inner().trace()),
            ).rx_empty(),
    {
        match self.device.read_register::<FifoStatus>() {
            Ok((_, fifo_status)) => Ok(fifo_status.rx_empty()),
            Err(e) => Err(e),
        }
    }

    /// Is the receive queue full?
    pub fn is_full(&mut self) -> (r: Result<bool, Error<D::Error>>)
        ensures
            exchanged(old(self).inner(), final(self).inner(), read_frame::<FifoStatus>(), r is Ok),
            bus_failure(r),
            r matches Ok(full) ==> full == register_in::<FifoStatus>(
                last_reply(final(self).inner().trace()),
            ).rx_full(),
    {
        match self.device.read_register::<FifoStatus>() {
            Ok((_, fifo_status)) => Ok(fifo_status.rx_full()),
            Err(e) => Err(e),
        }
    }

    /// Reads the packet at the head of the receive queue.
    ///
    /// A reported length of zero gives an empty payload. A reported length
    /// above 32 shows that the queue is corrupt: it is flushed, and the
    /// payload is empty.
    pub fn read(&mut self) -> (r: Result<Payload, Error<D::Error>>)
        ensures
            final(self).inner().config() == old(self).inner().config(),
            packet_read(old(self).inner().trace(), final(self).inner().trace(), r),
    {
        read_packet(&mut self.device)
    }
}

/// A payload of no bytes.
fn empty_payload() -> (payload: Payload)
    ensures
        payload@ == Seq::<u8>::empty(),
{
    let nothing: [u8; 0] = [];
    let payload = Payload::new(array_as_slice(&nothing));
    assert(payload@ =~= Seq::<u8>::empty());
    payload
}

/// Reads the packet at the head of the receive queue of `device`.
pub(crate) fn read_packet<D: Device>(device: &mut D) -> (r: Result<Payload, Error<D::Error>>)
    ensures
        final(device).config() == old(device).config(),
        packet_read(old(device).trace(), final(device).trace(), r),
{
    let ghost before = device.trace();
    let ghost at = before.len() as int;
    let payload_width = match device.send_command(&ReadRxPayloadWidth) {
        Ok((_, width)) => width,
        Err(e) => {
            return Err(e);
        },
    };
    let ghost asked = device.trace();
    assert(payload_width == reply_at(asked, at)[1]);
    if payload_width == 0 {
        return Ok(empty_payload());
    }
    if payload_width as usize > MAX_PAYLOAD_BYTES {
        let flushed = device.send_command(&FlushRx);
        proof {
            lemma_grown_twice(before, asked, device.trace(), 3, 3);
            lemma_grown_keeps(asked, device.trace(), 3, at);
        }
        return match flushed {
            Ok(_) => Ok(empty_payload()),
            Err(e) => Err(e),
        };
    }
    let command = ReadRxPayload::new(payload_width as usize);
    assert(command.frame() =~= payload_frame(payload_width));
    let read = device.send_command(&command);
    proof {
        lemma_grown_twice(before, asked, device.trace(), 3, 3);
        lemma_grown_keeps(asked, device.trace(), 3, at);
    }
    match read {
        Ok((_, payload)) => {
            assert(reply_at(device.trace(), at + 3).skip(1).len() <= MAX_PAYLOAD_BYTES);
            Ok(payload)
        },
        Err(e) => Err(e),
    }
}

impl<D: Device> Configuration for RxMode<D> {
    type Inner = D;

    closed spec fn inner(&self) -> D {
        self.device
    }

    fn device(&mut self) -> (device: &mut D) {
        &mut self.device
    }
}

} // verus!
