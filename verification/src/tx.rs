//! Transmit mode.

use crate::bits::with_bit;
use crate::command::{read_frame, write_frame, Command, FlushTx, WriteTxPayload};
use crate::config::{bus_failure, exchanged, Configuration};
use crate::device::{register_in, status_in, Device};
use crate::error::Error;
use crate::payload::MAX_PAYLOAD_BYTES;
use crate::registers::{FifoStatus, ObserveTx, Status};
use crate::standby::StandbyMode;
use crate::trace::{
    aborted, completed_at, extends_by, failed_at, last_reply, lemma_grown_keeps, lemma_grown_twice,
    reply_at, Event,
};
use vstd::prelude::*;

verus! {

/// The chip in transmit mode. CE is low while the transmit queue is empty
/// and is raised when a packet is queued. The chip must not be kept
/// transmitting for more than 4 ms at a time.
pub struct TxMode<D: Device> {
    device: D,
}

/// Whether a reply to a read of FIFO_STATUS says that the transmit queue
/// is full, in the status byte or in the register.
pub open spec fn queue_full(reply: Seq<u8>) -> bool {
    status_in(reply).tx_full() || register_in::<FifoStatus>(reply).tx_full()
}

/// The frame that queues `packet` for transmission.
pub open spec fn tx_payload_frame(packet: Seq<u8>) -> Seq<u8> {
    seq![0xA0u8] + packet
}

/// STATUS with the two interrupt flags of the transmitter set, which
/// written to the chip clears both.
pub open spec fn tx_interrupts() -> Status {
    Status(0x30)
}

/// What queueing a payload does, where `frame` is the command that carries
/// it. FIFO_STATUS is read first. Where it reports a full transmit queue
/// the payload is not written and the result is `QueueFull`; else `frame`
/// is exchanged.
pub open spec fn queued<E>(
    before: Seq<Event>,
    after: Seq<Event>,
    frame: Seq<u8>,
    r: Result<(), Error<E>>,
) -> bool {
    let at = before.len() as int;
    let full = queue_full(reply_at(after, at));
    match r {
        Ok(_) => {
            &&& extends_by(before, after, 6)
            &&& completed_at(after, at, read_frame::<FifoStatus>())
            &&& !full
            &&& completed_at(after, at + 3, frame)
        },
        Err(Error::QueueFull) => {
            &&& extends_by(before, after, 3)
            &&& completed_at(after, at, read_frame::<FifoStatus>())
            &&& full
        },
        Err(Error::SpiError(_)) => {
            ||| aborted(before, after, read_frame::<FifoStatus>())
            ||| {
                &&& extends_by(before, after, 6)
                &&& completed_at(after, at, read_frame::<FifoStatus>())
                &&& !full
                &&& failed_at(after, at + 3, frame)
            }
        },
        Err(_) => false,
    }
}

/// A payload for a full queue is refused and never written: where the
/// read of FIFO_STATUS was carried and reports a full transmit queue, the
/// result is `QueueFull` and the read is all that was put on the wire; and
/// where it reports room, the result is not `QueueFull`.
pub proof fn lemma_full_queue_refuses<E>(
    before: Seq<Event>,
    after: Seq<Event>,
    frame: Seq<u8>,
    r: Result<(), Error<E>>,
)
    requires
        queued(before, after, frame, r),
        completed_at(after, before.len() as int, read_frame::<FifoStatus>()),
    ensures
        queue_full(reply_at(after, before.len() as int)) <==> r matches Err(Error::QueueFull),
        queue_full(reply_at(after, before.len() as int)) ==> extends_by(before, after, 3),
{
    if r matches Err(Error::SpiError(_)) {
        if aborted(before, after, read_frame::<FifoStatus>()) {
            let at = before.len() as int;
            assert(after.subrange(at, at + 3)[1] == after[at + 1]);
        }
    }
}

/// Queues the payload that `command` carries, unless the transmit queue is
/// full.
pub(crate) fn queue_payload<D: Device, C: Command>(device: &mut D, command: &C) -> (r: Result<
    (),
    Error<D::Error>,
>)
    requires
        command.wf(),
    ensures
        final(device).config() == old(device).config(),
        queued(old(device).trace(), final(device).trace(), command.frame(), r),
{
    let ghost before = device.trace();
    let ghost at = before.len() as int;
    let (status, fifo_status) = match device.read_register::<FifoStatus>() {
        Ok(read) => read,
        Err(e) => {
            return Err(e);
        },
    };
    if status.tx_full() || fifo_status.tx_full() {
        return Err(Error::QueueFull);
    }
    let ghost checked = device.trace();
    let written = device.send_command(command);
    proof {
        lemma_grown_twice(before, checked, device.trace(), 3, 3);
        lemma_grown_keeps(checked, device.trace(), 3, at);
    }
    match written {
        Ok(_) => Ok(()),
        Err(e) => Err(e),
    }
}

/// What sending a packet does: a packet of more than 32 bytes is refused
/// with nothing done; else it is queued, and once it is, CE is raised.
pub open spec fn sent<D: Device>(
    before: D,
    after: D,
    packet: Seq<u8>,
    r: Result<(), Error<D::Error>>,
) -> bool {
    if packet.len() > MAX_PAYLOAD_BYTES {
        &&& r matches Err(Error::PayloadTooLarge)
        &&& after == before
    } else {
        &&& after.config() == before.config()
        &&& match r {
            Ok(_) => {
                &&& after.trace().len() > 0
                &&& after.trace().last() == Event::CeHigh
                &&& queued(before.trace(), after.trace().drop_last(), tx_payload_frame(packet), r)
            },
            Err(_) => queued(before.trace(), after.trace(), tx_payload_frame(packet), r),
        }
    }
}

/// What one look at the transmit queue does and returns. FIFO_STATUS is
/// read. While the queue is not empty CE is raised. Where the status byte
/// shows that a packet has used up its retransmissions, the transmit queue
/// is flushed and the transmitter's interrupts are cleared: the chip would
/// else neither drop the packet nor go on to the next. The result tells
/// whether the queue was empty.
pub open spec fn polled<E>(
    before: Seq<Event>,
    after: Seq<Event>,
    r: Result<bool, Error<E>>,
) -> bool {
    let at = before.len() as int;
    let reply = reply_at(after, at);
    let empty = register_in::<FifoStatus>(reply).tx_empty();
    let stuck = status_in(reply).max_rt();
    let next: int = if empty {
        at + 3
    } else {
        at + 4
    };
    match r {
        Ok(drained) => {
            &&& completed_at(after, at, read_frame::<FifoStatus>())
            &&& drained == empty
            &&& !empty ==> after[at + 3] == Event::CeHigh
            &&& if stuck {
                &&& extends_by(before, after, next + 6 - at)
                &&& completed_at(after, next, seq![0xE1u8])
                &&& completed_at(after, next + 3, write_frame(tx_interrupts()))
            } else {
                extends_by(before, after, next - at)
            }
        },
        Err(e) => {
            &&& e is SpiError
            &&& {
                ||| aborted(before, after, read_frame::<FifoStatus>())
                ||| {
                    &&& completed_at(after, at, read_frame::<FifoStatus>())
                    &&& stuck
                    &&& !empty ==> after[at + 3] == Event::CeHigh
                    &&& {
                        ||| {
                            &&& extends_by(before, after, next + 3 - at)
                            &&& failed_at(after, next, seq![0xE1u8])
                        }
                        ||| {
                            &&& extends_by(before, after, next + 6 - at)
                            &&& completed_at(after, next, seq![0xE1u8])
                            &&& failed_at(after, next + 3, write_frame(tx_interrupts()))
                        }
                    }
                }
            }
        },
    }
}

/// What waiting for the transmit queue to drain does and returns, with at
/// most `polls` looks at the queue. Each look is as [`polled`] says. The
/// first that finds the queue empty ends the wait: CE is lowered and the
/// result is `true`. An error ends it too. Where no look is left the result
/// is `false` and CE stays as it is.
pub open spec fn waited<E>(
    before: Seq<Event>,
    after: Seq<Event>,
    polls: nat,
    r: Result<bool, Error<E>>,
) -> bool
    decreases polls,
{
    if polls == 0 {
        after == before && r == Ok::<bool, Error<E>>(false)
    } else {
        exists|middle: Seq<Event>, first: Result<bool, Error<E>>|
            {
                &&& #[trigger] polled(before, middle, first)
                &&& match first {
                    Ok(false) => waited(middle, after, (polls - 1) as nat, r),
                    Ok(true) => after == middle.push(Event::CeLow) && r == first,
                    Err(_) => after == middle && r == first,
                }
            }
    }
}

impl<D: Device> TxMode<D> {
    /// Takes over a chip that [`StandbyMode::tx`] has put into transmit
    /// mode.
    pub(crate) fn new(device: D) -> (tx: Self)
        ensures
            tx.inner() == device,
    {
        TxMode { device }
    }

    /// Waits for the transmit queue to drain, with at most `max_polls`
    /// looks at it, and goes back to standby, so that nothing queued is
    /// left behind unsent. Where the queue has not drained, or the bus
    /// fails, the chip stays in transmit mode and the mode is handed back,
    /// with the error if there was one.
    pub fn standby(self, max_polls: u32) -> (r: Result<
        StandbyMode<D>,
        (Self, Option<Error<D::Error>>),
    >)
        ensures
            match r {
                Ok(standby) => {
                    &&& standby.inner().config() == self.inner().config()
                    &&& standby.inner().trace().len() > 0
                    &&& standby.inner().trace().last() == Event::CeLow
                    &&& waited(
                        self.inner().trace(),
                        standby.inner().trace().drop_last(),
                        max_polls as nat,
                        Ok::<bool, Error<D::Error>>(true),
                    )
                },
                Err((tx, None)) => {
                    &&& tx.inner().config() == self.inner().config()
                    &&& waited(
                        self.inner().trace(),
                        tx.inner().trace(),
                        max_polls as nat,
                        Ok::<bool, Error<D::Error>>(false),
                    )
                },
                Err((tx, Some(e))) => {
                    &&& tx.inner().config() == self.inner().config()
                    &&& waited(
                        self.inner().trace(),
                        tx.inner().trace(),
                        max_polls as nat,
                        Err::<bool, Error<D::Error>>(e),
                    )
                },
            },
    {
        let mut tx = self;
        match tx.wait_empty(max_polls) {
            Ok(true) => {
                let ghost drained = tx.device.trace();
                let standby = StandbyMode::from_rx_tx(tx.device);
                assert(standby.inner().trace().drop_last() =~= drained);
                Ok(standby)
            },
            Ok(false) => Err((tx, None)),
            Err(e) => Err((tx, Some(e))),
        }
    }

    /// Is the transmit queue empty?
    pub fn is_empty(&mut self) -> (r: Result<bool, Error<D::Error>>)
        ensures
            exchanged(old(self).inner(), final(self).inner(), read_frame::<FifoStatus>(), r is Ok),
            bus_failure(r),
            r matches Ok(empty) ==> empty == register_in::<FifoStatus>(
                last_reply(final(self).inner().trace()),
            ).tx_empty(),
    {
        match self.device.read_register::<FifoStatus>() {
            Ok((_, fifo_status)) => Ok(fifo_status.tx_empty()),
            Err(e) => Err(e),
        }
    }

    /// Is the transmit queue full?
    pub fn is_full(&mut self) -> (r: Result<bool, Error<D::Error>>)
        ensures
            exchanged(old(self).inner(), final(self).inner(), read_frame::<FifoStatus>(), r is Ok),
            bus_failure(r),
            r matches Ok(full) ==> full == register_in::<FifoStatus>(
                last_reply(final(self).inner().trace()),
            ).tx_full(),
    {
        match self.device.read_register::<FifoStatus>() {
            Ok((_, fifo_status)) => Ok(fifo_status.tx_full()),
            Err(e) => Err(e),
        }
    }

    /// Does the transmit queue have room? It holds up to three packets.
    pub fn can_send(&mut self) -> (r: Result<bool, Error<D::Error>>)
        ensures
            exchanged(old(self).inner(), final(self).inner(), read_frame::<FifoStatus>(), r is Ok),
            bus_failure(r),
            r matches Ok(room) ==> room == !register_in::<FifoStatus>(
                last_reply(final(self).inner().trace()),
            ).tx_full(),
    {
        match self.is_full() {
            Ok(full) => Ok(!full),
            Err(e) => Err(e),
        }
    }

    /// Queues a packet and raises CE, which starts the transmission. The
    /// call does not wait for it: CE stays high until
    /// [`TxMode::wait_empty`] has seen the queue drain.
    ///
    /// A packet of more than 32 bytes is refused before anything is put on
    /// the bus, and a packet for a full queue is not written.
    pub fn send(&mut self, packet: &[u8]) -> (r: Result<(), Error<D::Error>>)
        ensures
            sent(old(self).inner(), final(self).inner(), packet@, r),
    {
        if packet.len() > MAX_PAYLOAD_BYTES {
            return Err(Error::PayloadTooLarge);
        }
        let command = WriteTxPayload::new(packet);
        queue_payload(&mut self.device, &command)?;
        let ghost written = self.device.trace();
        self.device.ce_enable();
        assert(self.device.trace().drop_last() =~= written);
        Ok(())
    }

    /// Looks at the transmit queue once: keeps CE high while the queue is
    /// not empty, and flushes the queue where the packet at its head has
    /// used up its retransmissions, which loses every packet queued.
    /// Returns whether the queue was empty.
    pub fn poll_empty(&mut self) -> (r: Result<bool, Error<D::Error>>)
        ensures
            final(self).inner().config() == old(self).inner().config(),
            polled(old(self).inner().trace(), final(self).inner().trace(), r),
    {
        let ghost before = self.device.trace();
        let ghost at = before.len() as int;
        let (status, fifo_status) = match self.device.read_register::<FifoStatus>() {
            Ok(read) => read,
            Err(e) => {
                return Err(e);
            },
        };
        let ghost read = self.device.trace();
        let empty = fifo_status.tx_empty();
        if !empty {
            self.device.ce_enable();
        }
        let ghost raised = self.device.trace();
        let ghost next: int = if empty {
            at + 3
        } else {
            at + 4
        };
        proof {
            assert(raised.subrange(0, read.len() as int) =~= read);
            lemma_grown_twice(before, read, raised, 3, next - at - 3);
            lemma_grown_keeps(read, raised, next - at - 3, at);
        }

        // TX won't continue while MAX_RT is set
        if status.max_rt() {
            // The packet is not removed from the queue by itself, so
            // without a flush the queue would never drain.
            let flushed = self.device.send_command(&FlushTx);
            let ghost after_flush = self.device.trace();
            proof {
                lemma_grown_twice(before, raised, after_flush, next - at, 3);
                lemma_grown_keeps(raised, after_flush, 3, at);
                assert(!empty ==> after_flush[at + 3] == raised[at + 3]) by {
                    if !empty {
                        assert(after_flush.subrange(0, raised.len() as int)[at + 3] == raised[at
                            + 3]);
                    }
                }
            }
            match flushed {
                Ok(_) => {},
                Err(e) => {
                    return Err(e);
                },
            }
            // Clear TX interrupts
            let mut clear = Status(0);
            clear.set_tx_ds(true);
            clear.set_max_rt(true);
            assert(with_bit(with_bit(0, 5, true), 4, true) == 0x30) by (bit_vector);
            let cleared = self.device.write_register(clear);
            proof {
                let last = self.device.trace();
                lemma_grown_twice(before, after_flush, last, next + 3 - at, 3);
                lemma_grown_keeps(after_flush, last, 3, at);
                lemma_grown_keeps(after_flush, last, 3, next);
                assert(!empty ==> last[at + 3] == after_flush[at + 3]) by {
                    if !empty {
                        assert(last.subrange(0, after_flush.len() as int)[at + 3] == after_flush[at
                            + 3]);
                    }
                }
            }
            match cleared {
                Ok(_) => {},
                Err(e) => {
                    return Err(e);
                },
            }
        }
        Ok(empty)
    }

    /// Waits until the transmit queue is empty, with at most `max_polls`
    /// looks at it, then lowers CE to save power. Returns whether the
    /// queue was seen empty; where it was not, CE is left high and the
    /// call can be repeated.
    ///
    /// If a packet cannot be delivered within its retransmissions the
    /// queue is flushed, and the packets behind it are lost with it.
    pub fn wait_empty(&mut self, max_polls: u32) -> (r: Result<bool, Error<D::Error>>)
        ensures
            final(self).inner().config() == old(self).inner().config(),
            waited(old(self).inner().trace(), final(self).inner().trace(), max_polls as nat, r),
    {
        let ghost start = self.device.trace();
        let mut left = max_polls;
        while left > 0
            invariant
                self.device.config() == old(self).device.config(),
                start == old(self).device.trace(),
                forall|end: Seq<Event>, res: Result<bool, Error<D::Error>>| #[trigger]
                    waited(self.device.trace(), end, left as nat, res) ==> waited(
                        start,
                        end,
                        max_polls as nat,
                        res,
                    ),
            decreases left,
        {
            let ghost here = self.device.trace();
            let polled_once = self.poll_empty();
            let ghost there = self.device.trace();
            let ghost first = polled_once;
            match polled_once {
                Ok(true) => {
                    // Can save power now
                    self.device.ce_disable();
                    assert(waited(here, self.device.trace(), left as nat, first)) by {
                        assert(polled(here, there, first));
                    }
                    return Ok(true);
                },
                Ok(false) => {
                    let ghost had = left as nat;
                    left = left - 1;
                    assert forall|end: Seq<Event>, res: Result<bool, Error<D::Error>>| #[trigger]
                        waited(there, end, left as nat, res) implies waited(
                        start,
                        end,
                        max_polls as nat,
                        res,
                    ) by {
                        assert(polled(here, there, first));
                        assert(waited(here, end, had, res));
                    }
                },
                Err(e) => {
                    assert(waited(here, there, left as nat, first)) by {
                        assert(polled(here, there, first));
                    }
                    return Err(e);
                },
            }
        }
        proof {
            let pending = Ok::<bool, Error<D::Error>>(false);
            assert(waited(self.device.trace(), self.device.trace(), 0, pending));
        }
        Ok(false)
    }

    /// Reads the transmission statistics: packets lost, and
    /// retransmissions of the current packet.
    pub fn observe(&mut self) -> (r: Result<ObserveTx, Error<D::Error>>)
        ensures
            exchanged(old(self).inner(), final(self).inner(), read_frame::<ObserveTx>(), r is Ok),
            bus_failure(r),
            r matches Ok(observe_tx) ==> observe_tx == register_in::<ObserveTx>(
                last_reply(final(self).inner().trace()),
            ),
    {
        match self.device.read_register::<ObserveTx>() {
            Ok((_, observe_tx)) => Ok(observe_tx),
            Err(e) => Err(e),
        }
    }
}

impl<D: Device> Configuration for TxMode<D> {
    type Inner = D;

    closed spec fn inner(&self) -> D {
        self.device
    }

    fn device(&mut self) -> (device: &mut D) {
        &mut self.device
    }
}

} // verus!
