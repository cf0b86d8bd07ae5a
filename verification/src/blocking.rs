//! Operations of the driver that see a whole job through: sending what is
//! queued, reading what has arrived, scanning the band.
//!
//! They wait for the chip by looking at it again and again. The number of
//! looks is bounded by the caller, so that each of them returns whatever
//! the chip does.

use crate::ce::Level;
use crate::command::{read_frame, write_frame};
use crate::config::{bus_failure, exchanged, rf_ch};
use crate::device::{register_in, status_in, Delay, Device, DigitalOutput, FullDuplex};
use crate::error::Error;
use crate::payload::Payload;
use crate::radio::{level_event, NRF24L01};
use crate::registers::{lemma_field_geometry, EnAa, FifoStatus, ObserveTx, RfCh, Status, CD};
use crate::rx::{packet_read, payload_frame, read_packet, width_frame};
use crate::trace::{
    aborted, completed, completed_at, extends_by, failed_at, lemma_grown_keeps, lemma_grown_twice,
    reply_at, Event,
};
use vstd::prelude::*;

verus! {

/// STATUS with the data-sent and retransmit-limit flags set.
pub open spec fn sent_or_failed() -> Status {
    Status(0x30)
}

/// STATUS with the retransmit-limit flag set.
pub open spec fn failed_only() -> Status {
    Status(0x10)
}

/// STATUS with the data-sent flag set.
pub open spec fn sent_only() -> Status {
    Status(0x20)
}

/// The pulse on CE that starts a transmission: high, ten microseconds,
/// low.
pub open spec fn pulse() -> Seq<Event> {
    seq![Event::CeHigh, Event::Pause { micros: 10 }, Event::CeLow]
}

/// What getting ready to send does and returns: the flags of an earlier
/// transmission are cleared, FIFO_STATUS is read, and the result tells
/// whether a packet waits in the transmit queue.
pub open spec fn readied<E>(
    before: Seq<Event>,
    after: Seq<Event>,
    r: Result<bool, Error<E>>,
) -> bool {
    let at = before.len() as int;
    match r {
        Ok(waiting) => {
            &&& extends_by(before, after, 6)
            &&& completed_at(after, at, write_frame(sent_or_failed()))
            &&& completed_at(after, at + 3, read_frame::<FifoStatus>())
            &&& waiting == !register_in::<FifoStatus>(reply_at(after, at + 3)).tx_empty()
        },
        Err(e) => {
            &&& e is SpiError
            &&& {
                ||| aborted(before, after, write_frame(sent_or_failed()))
                ||| {
                    &&& extends_by(before, after, 6)
                    &&& completed_at(after, at, write_frame(sent_or_failed()))
                    &&& failed_at(after, at + 3, read_frame::<FifoStatus>())
                }
            }
        },
    }
}

/// What one look at a transmission under way does and returns. After 360
/// microseconds OBSERVE_TX is read, and the status byte that comes with it
/// decides. With neither flag set the packet is still under way: `None`.
/// With the retransmit limit reached, that flag is cleared and the result
/// is `MaxRetransmitsExceeded`. Else the packet has been sent: FIFO_STATUS
/// is read, and the result is the number of retransmissions the packet
/// took and whether another packet waits.
pub open spec fn looked<E>(
    before: Seq<Event>,
    after: Seq<Event>,
    r: Result<Option<(u8, bool)>, Error<E>>,
) -> bool {
    let at = before.len() as int + 1;
    let reply = reply_at(after, at);
    let status = status_in(reply);
    let observe = register_in::<ObserveTx>(reply);
    &&& after.len() > before.len()
    &&& after[before.len() as int] == Event::Pause { micros: 360 }
    &&& match r {
        Ok(None) => {
            &&& extends_by(before, after, 4)
            &&& completed_at(after, at, read_frame::<ObserveTx>())
            &&& !status.tx_ds()
            &&& !status.max_rt()
        },
        Ok(Some((retries, more))) => {
            &&& extends_by(before, after, 7)
            &&& completed_at(after, at, read_frame::<ObserveTx>())
            &&& status.tx_ds()
            &&& !status.max_rt()
            &&& completed_at(after, at + 3, read_frame::<FifoStatus>())
            &&& retries == observe.arc_cnt()
            &&& more == !register_in::<FifoStatus>(reply_at(after, at + 3)).tx_empty()
        },
        Err(Error::MaxRetransmitsExceeded) => {
            &&& extends_by(before, after, 7)
            &&& completed_at(after, at, read_frame::<ObserveTx>())
            &&& status.max_rt()
            &&& completed_at(after, at + 3, write_frame(failed_only()))
        },
        Err(Error::SpiError(_)) => {
            ||| {
                &&& extends_by(before, after, 4)
                &&& failed_at(after, at, read_frame::<ObserveTx>())
            }
            ||| {
                &&& extends_by(before, after, 7)
                &&& completed_at(after, at, read_frame::<ObserveTx>())
                &&& if status.max_rt() {
                    failed_at(after, at + 3, write_frame(failed_only()))
                } else {
                    status.tx_ds() && failed_at(after, at + 3, read_frame::<FifoStatus>())
                }
            }
        },
        Err(_) => false,
    }
}

/// What ending a send does and returns, after `total` retransmissions in
/// all: the data-sent flag is cleared.
pub open spec fn ended<E>(
    before: Seq<Event>,
    after: Seq<Event>,
    total: u8,
    r: Result<Option<u8>, Error<E>>,
) -> bool {
    match r {
        Ok(Some(retries)) => retries == total && completed(before, after, write_frame(sent_only())),
        Err(Error::SpiError(_)) => aborted(before, after, write_frame(sent_only())),
        _ => false,
    }
}

/// The sum of two counts of retransmissions, as a byte holds it.
pub open spec fn wrapped_sum(a: u8, b: u8) -> u8 {
    ((a + b) % 256) as u8
}

/// What waiting for packets to be sent does and returns, once the first
/// has been started, with at most `looks` looks at the chip and `total`
/// retransmissions counted so far. Each look is as [`looked`] says. While
/// the packet is under way the wait goes on. When it has been sent its
/// retransmissions are added to the count; where another packet waits it
/// is started with a pulse on CE and awaited in turn, else the send ends as
/// [`ended`] says. An error ends the wait. Where no look is left the
/// result is `None`.
pub open spec fn awaited<E>(
    before: Seq<Event>,
    after: Seq<Event>,
    looks: nat,
    total: u8,
    r: Result<Option<u8>, Error<E>>,
) -> bool
    decreases looks,
{
    if looks == 0 {
        after == before && r == Ok::<Option<u8>, Error<E>>(None)
    } else {
        exists|middle: Seq<Event>, first: Result<Option<(u8, bool)>, Error<E>>|
            {
                &&& #[trigger] looked(before, middle, first)
                &&& match first {
                    Ok(None) => awaited(middle, after, (looks - 1) as nat, total, r),
                    Ok(Some((retries, true))) => awaited(
                        middle + pulse(),
                        after,
                        (looks - 1) as nat,
                        wrapped_sum(total, retries),
                        r,
                    ),
                    Ok(Some((retries, false))) => ended(
                        middle,
                        after,
                        wrapped_sum(total, retries),
                        r,
                    ),
                    Err(e) => after == middle && r == Err::<Option<u8>, Error<E>>(e),
                }
            }
    }
}

/// What sending all queued packets does and returns, with at most `looks`
/// looks at the chip. The send is made ready as [`readied`] says. With
/// nothing queued it ends at once, with no retransmissions. Else the first
/// packet is started with a pulse on CE, and the packets are awaited as
/// [`awaited`] says.
pub open spec fn all_sent<E>(
    before: Seq<Event>,
    after: Seq<Event>,
    looks: nat,
    r: Result<Option<u8>, Error<E>>,
) -> bool {
    exists|middle: Seq<Event>, ready: Result<bool, Error<E>>|
        {
            &&& #[trigger] readied(before, middle, ready)
            &&& match ready {
                Ok(true) => awaited(middle + pulse(), after, looks, 0, r),
                Ok(false) => ended(middle, after, 0, r),
                Err(e) => after == middle && r == Err::<Option<u8>, Error<E>>(e),
            }
        }
}

impl<CE: DigitalOutput, CSN: DigitalOutput, SPI: FullDuplex> NRF24L01<CE, CSN, SPI> {
    /// Makes ready to send: clears the flags of an earlier transmission and
    /// looks whether a packet waits in the transmit queue.
    pub fn ready_to_send(&mut self) -> (r: Result<bool, Error<SPI::Error>>)
        ensures
            final(self).config() == old(self).config(),
            readied(old(self).trace(), final(self).trace(), r),
    {
        let ghost before = self.trace();
        // clear TX_DS and MAX_RT
        match self.write_register(Status(0x30)) {
            Ok(_) => {},
            Err(e) => {
                return Err(e);
            },
        }
        let ghost cleared = self.trace();
        let read = self.read_register::<FifoStatus>();
        proof {
            lemma_grown_twice(before, cleared, self.trace(), 3, 3);
            lemma_grown_keeps(cleared, self.trace(), 3, before.len() as int);
        }
        match read {
            Ok((_, fifo_status)) => Ok(!fifo_status.tx_empty()),
            Err(e) => Err(e),
        }
    }

    /// Starts the transmission of the packet at the head of the queue with
    /// a pulse of ten microseconds on CE.
    pub fn start_packet<T: Delay>(&mut self, timer: &mut T)
        ensures
            final(self).config() == old(self).config(),
            final(self).trace() == old(self).trace() + pulse(),
    {
        let ghost before = self.trace();
        self.ce_enable();
        self.pause_us(timer, 10);
        self.ce_disable();
        assert(self.trace() =~= before + pulse());
    }

    /// Looks once at a transmission under way, 360 microseconds from now.
    /// Returns `None` while the packet is under way, and once it has been
    /// sent the number of retransmissions it took and whether another
    /// packet waits. A packet that was sent as often as configured without
    /// an acknowledgement gives `MaxRetransmitsExceeded`, and stays in the
    /// queue.
    pub fn look_for_ack<T: Delay>(&mut self, timer: &mut T) -> (r: Result<
        Option<(u8, bool)>,
        Error<SPI::Error>,
    >)
        ensures
            final(self).config() == old(self).config(),
            looked(old(self).trace(), final(self).trace(), r),
    {
        let ghost before = self.trace();
        let ghost at = before.len() as int + 1;
        // wait at least 360us
        self.pause_us(timer, 360);
        let ghost paused = self.trace();
        assert(paused.subrange(0, before.len() as int) =~= before);
        let observed = self.read_register::<ObserveTx>();
        let ghost read = self.trace();
        proof {
            lemma_grown_twice(before, paused, read, 1, 3);
            assert(read[before.len() as int] == read.subrange(0, paused.len() as int)[at - 1]);
        }
        let (status, observe) = match observed {
            Ok(pair) => pair,
            Err(e) => {
                return Err(e);
            },
        };
        if !status.tx_ds() && !status.max_rt() {
            return Ok(None);
        }
        // check MAX_RT
        if status.max_rt() {
            // failure
            // clear MAX_RT
            let cleared = self.write_register(Status(0x10));
            proof {
                let last = self.trace();
                lemma_grown_twice(before, read, last, 4, 3);
                lemma_grown_keeps(read, last, 3, at);
                assert(last[before.len() as int] == last.subrange(0, read.len() as int)[at - 1]);
            }
            return match cleared {
                Ok(_) => Err(Error::MaxRetransmitsExceeded),
                Err(e) => Err(e),
            };
        }
        // Success
        let fifo = self.read_register::<FifoStatus>();
        proof {
            let last = self.trace();
            lemma_grown_twice(before, read, last, 4, 3);
            lemma_grown_keeps(read, last, 3, at);
            assert(last[before.len() as int] == last.subrange(0, read.len() as int)[at - 1]);
            lemma_field_geometry();
        }
        match fifo {
            Ok((_, fifo_status)) => Ok(Some((observe.arc_cnt(), !fifo_status.tx_empty()))),
            Err(e) => Err(e),
        }
    }

    /// Ends a send once nothing waits in the transmit queue: clears the
    /// data-sent flag.
    pub fn end_sending(&mut self) -> (r: Result<(), Error<SPI::Error>>)
        ensures
            exchanged(*old(self), *final(self), write_frame(sent_only()), r is Ok),
            bus_failure(r),
    {
        // clear TX_DS
        match self.write_register(Status(0x20)) {
            Ok(_) => Ok(()),
            Err(e) => Err(e),
        }
    }

    /// [TX mode only] Sends all packets in the transmit queue.
    ///
    /// The call returns when all packets have been sent, when a packet has
    /// been sent as often as configured without an acknowledgement, or
    /// when it has looked at the chip `max_looks` times, 360 microseconds
    /// apart. It returns the number of retransmissions that the packets
    /// took, as far as a byte counts them, or `None` where the looks ran
    /// out with a packet under way.
    ///
    /// The payloads that failed to be sent remain in the queue. Call
    /// `send` again to try once more, or `flush_output` to clear the
    /// queue.
    pub fn send<T: Delay>(&mut self, timer: &mut T, max_looks: u32) -> (r: Result<
        Option<u8>,
        Error<SPI::Error>,
    >)
        ensures
            final(self).config() == old(self).config(),
            all_sent(old(self).trace(), final(self).trace(), max_looks as nat, r),
    {
        let ghost start = self.trace();
        let ready = self.ready_to_send();
        let ghost is_ready = self.trace();
        let ghost readiness = ready;
        match ready {
            Ok(true) => {},
            Ok(false) => {
                return match self.end_sending() {
                    Ok(_) => Ok(Some(0)),
                    Err(e) => Err(e),
                };
            },
            Err(e) => {
                return Err(e);
            },
        }
        // init retry counter
        let mut counter = 0u8;
        // send with a 10us pulse
        self.start_packet(timer);
        let mut left = max_looks;
        while left > 0
            invariant
                self.config() == old(self).config(),
                start == old(self).trace(),
                readied(start, is_ready, readiness),
                readiness == Ok::<bool, Error<SPI::Error>>(true),
                forall|end: Seq<Event>, res: Result<Option<u8>, Error<SPI::Error>>| #[trigger]
                    awaited(self.trace(), end, left as nat, counter, res) ==> awaited(
                        is_ready + pulse(),
                        end,
                        max_looks as nat,
                        0,
                        res,
                    ),
            decreases left,
        {
            let ghost here = self.trace();
            let ghost had = left as nat;
            let ghost total = counter;
            // wait for ACK
            let seen = self.look_for_ack(timer);
            let ghost there = self.trace();
            let ghost first = seen;
            left = left - 1;
            match seen {
                Ok(None) => {
                    assert forall|
                        end: Seq<Event>,
                        res: Result<Option<u8>, Error<SPI::Error>>,
                    | #[trigger]
                        awaited(there, end, left as nat, counter, res) implies awaited(
                        is_ready + pulse(),
                        end,
                        max_looks as nat,
                        0,
                        res,
                    ) by {
                        assert(looked(here, there, first));
                        assert(awaited(here, end, had, total, res));
                    }
                },
                Ok(Some((retries, more))) => {
                    counter = counter.wrapping_add(retries);
                    assert(counter == wrapped_sum(total, retries));
                    if more {
                        self.start_packet(timer);
                        assert forall|
                            end: Seq<Event>,
                            res: Result<Option<u8>, Error<SPI::Error>>,
                        | #[trigger]
                            awaited(self.trace(), end, left as nat, counter, res) implies awaited(
                            is_ready + pulse(),
                            end,
                            max_looks as nat,
                            0,
                            res,
                        ) by {
                            assert(looked(here, there, first));
                            assert(awaited(here, end, had, total, res));
                        }
                    } else {
                        let r = match self.end_sending() {
                            Ok(_) => Ok(Some(counter)),
                            Err(e) => Err(e),
                        };
                        proof {
                            assert(looked(here, there, first));
                            assert(awaited(here, self.trace(), had, total, r));
                        }
                        return r;
                    }
                },
                Err(e) => {
                    proof {
                        let failed = Err::<Option<u8>, Error<SPI::Error>>(e);
                        assert(looked(here, there, first));
                        assert(awaited(here, there, had, total, failed));
                    }
                    return Err(e);
                },
            }
        }
        proof {
            let pending = Ok::<Option<u8>, Error<SPI::Error>>(None);
            assert(awaited(self.trace(), self.trace(), 0, counter, pending));
        }
        Ok(None)
    }
}

/// STATUS with the data-ready flag set.
pub open spec fn received_only() -> Status {
    Status(0x40)
}

/// What taking the next packet from the receive queue does and returns.
/// FIFO_STATUS is read; where it says that the queue is empty the result
/// is `None`, else the packet at the head is read as
/// [`packet_read`](crate::rx::packet_read) says.
pub open spec fn next_read<E>(
    before: Seq<Event>,
    after: Seq<Event>,
    r: Result<Option<Payload>, Error<E>>,
) -> bool {
    let at = before.len() as int;
    let empty = register_in::<FifoStatus>(reply_at(after, at)).rx_empty();
    match r {
        Ok(None) => {
            &&& extends_by(before, after, 3)
            &&& completed_at(after, at, read_frame::<FifoStatus>())
            &&& empty
        },
        Ok(Some(payload)) => {
            &&& at + 3 <= after.len()
            &&& after.subrange(0, at) == before
            &&& completed_at(after, at, read_frame::<FifoStatus>())
            &&& !empty
            &&& packet_read(after.subrange(0, at + 3), after, Ok::<Payload, Error<E>>(payload))
        },
        Err(e) => {
            ||| e is SpiError && aborted(before, after, read_frame::<FifoStatus>())
            ||| {
                &&& at + 3 <= after.len()
                &&& after.subrange(0, at) == before
                &&& completed_at(after, at, read_frame::<FifoStatus>())
                &&& !empty
                &&& packet_read(after.subrange(0, at + 3), after, Err::<Payload, Error<E>>(e))
            }
        },
    }
}

/// The packets `first` followed by those of `rest`, where there are any.
pub open spec fn and_then<E>(first: Seq<Payload>, rest: Result<Seq<Payload>, Error<E>>) -> Result<
    Seq<Payload>,
    Error<E>,
> {
    match rest {
        Ok(packets) => Ok(first + packets),
        Err(e) => Err(e),
    }
}

/// Whether the packets of `r`, where there are any, start with `first`.
pub open spec fn starts_with<E>(r: Result<Seq<Payload>, Error<E>>, first: Seq<Payload>) -> bool {
    r matches Ok(packets) ==> first.len() <= packets.len() && packets.subrange(
        0,
        first.len() as int,
    ) == first
}

/// The packets of `r`, where there are any, without the first
/// `first.len()` of them.
pub open spec fn without<E>(first: Seq<Payload>, r: Result<Seq<Payload>, Error<E>>) -> Result<
    Seq<Payload>,
    Error<E>,
> {
    match r {
        Ok(packets) => Ok(packets.skip(first.len() as int)),
        Err(e) => Err(e),
    }
}

/// A packet as it is kept: one that carries nothing is left out.
pub open spec fn kept(payload: Payload) -> Seq<Payload> {
    if payload@.len() == 0 {
        Seq::empty()
    } else {
        seq![payload]
    }
}

/// What emptying the receive queue does and returns, with at most `looks`
/// looks at it. Each look is as [`next_read`] says. The packets are
/// gathered in the order in which they come, but for those that carry
/// nothing. An empty queue ends it, and so does an error, with which the
/// packets gathered so far are lost. Where no look is left it ends too.
pub open spec fn gathered<E>(
    before: Seq<Event>,
    after: Seq<Event>,
    looks: nat,
    r: Result<Seq<Payload>, Error<E>>,
) -> bool
    decreases looks,
{
    if looks == 0 {
        after == before && r == Ok::<Seq<Payload>, Error<E>>(Seq::empty())
    } else {
        exists|middle: Seq<Event>, first: Result<Option<Payload>, Error<E>>|
            {
                &&& #[trigger] next_read(before, middle, first)
                &&& match first {
                    Ok(None) => after == middle && r == Ok::<Seq<Payload>, Error<E>>(Seq::empty()),
                    Ok(Some(payload)) => {
                        &&& starts_with(r, kept(payload))
                        &&& gathered(
                            middle,
                            after,
                            (looks - 1) as nat,
                            without(kept(payload), r),
                        )
                    },
                    Err(e) => after == middle && r == Err::<Seq<Payload>, Error<E>>(e),
                }
            }
    }
}

/// What reading all that has arrived does and returns, for a CE line that
/// was at `level`. CE is lowered, the receive queue is emptied as
/// [`gathered`] says, the data-ready flag is cleared, and CE is driven to
/// the level it had. An error ends it where it occurs, with CE low.
pub open spec fn all_read<E>(
    level: Level,
    before: Seq<Event>,
    after: Seq<Event>,
    looks: nat,
    r: Result<Seq<Payload>, Error<E>>,
) -> bool {
    exists|middle: Seq<Event>, packets: Result<Seq<Payload>, Error<E>>|
        {
            &&& #[trigger] gathered(before.push(Event::CeLow), middle, looks, packets)
            &&& match packets {
                Ok(_) => {
                    ||| {
                        &&& r == packets
                        &&& after.len() > 0
                        &&& after.last() == level_event(level)
                        &&& completed(middle, after.drop_last(), write_frame(received_only()))
                    }
                    ||| {
                        &&& r matches Err(Error::SpiError(_))
                        &&& aborted(middle, after, write_frame(received_only()))
                    }
                },
                Err(e) => after == middle && r == packets,
            }
        }
}

/// The command byte that an event put on the bus, where it put any.
pub open spec fn opcode(event: Event) -> Option<u8> {
    match event {
        Event::Transfer { sent, received } => if sent.len() > 0 {
            Some(sent[0])
        } else {
            None
        },
        Event::TransferFailed { sent } => if sent.len() > 0 {
            Some(sent[0])
        } else {
            None
        },
        _ => None,
    }
}

/// Whether an event leaves the transmit queue of the chip as it is: on the
/// bus it is at most a read of FIFO_STATUS, a read of a payload's length
/// or of a payload, a flush of the receive queue, or a write to STATUS.
pub open spec fn spares_tx_queue(event: Event) -> bool {
    match opcode(event) {
        Some(byte) => byte == 0x17 || byte == 0x60 || byte == 0x61 || byte == 0xE2 || byte == 0x27,
        None => true,
    }
}

/// `after` is `before` and then only events that leave the transmit queue
/// as it is.
pub open spec fn tx_queue_spared(before: Seq<Event>, after: Seq<Event>) -> bool {
    &&& before.len() <= after.len()
    &&& after.subrange(0, before.len() as int) == before
    &&& forall|i: int| before.len() <= i < after.len() ==> spares_tx_queue(#[trigger] after[i])
}

/// Sparing the transmit queue twice is sparing it.
proof fn lemma_spared_twice(before: Seq<Event>, middle: Seq<Event>, after: Seq<Event>)
    requires
        tx_queue_spared(before, middle),
        tx_queue_spared(middle, after),
    ensures
        tx_queue_spared(before, after),
{
    let n = before.len() as int;
    let m = middle.len() as int;
    assert(after.subrange(0, n) =~= after.subrange(0, m).subrange(0, n));
    assert forall|i: int| n <= i < after.len() implies spares_tx_queue(#[trigger] after[i]) by {
        if i < m {
            assert(after[i] == after.subrange(0, m)[i]);
            assert(spares_tx_queue(middle[i]));
        }
    }
}

/// An exchange spares the transmit queue where its command byte is one of
/// those that do, whether the bus carried it or not.
proof fn lemma_exchange_spares(trace: Seq<Event>, at: int, frame: Seq<u8>)
    requires
        completed_at(trace, at, frame) || failed_at(trace, at, frame),
        frame.len() > 0,
        frame[0] == 0x17 || frame[0] == 0x60 || frame[0] == 0x61 || frame[0] == 0xE2 || frame[0]
            == 0x27,
    ensures
        spares_tx_queue(trace[at]),
        spares_tx_queue(trace[at + 1]),
        spares_tx_queue(trace[at + 2]),
{
    let part = trace.subrange(at, at + 3);
    assert(trace[at] == part[0]);
    assert(trace[at + 1] == part[1]);
    assert(trace[at + 2] == part[2]);
}

/// Reading a packet spares the transmit queue.
proof fn lemma_packet_read_spares<E>(
    before: Seq<Event>,
    after: Seq<Event>,
    r: Result<Payload, Error<E>>,
)
    requires
        packet_read(before, after, r),
    ensures
        tx_queue_spared(before, after),
{
    let at = before.len() as int;
    let width = reply_at(after, at)[1];
    let second = if width > 32 {
        seq![0xE2u8]
    } else {
        payload_frame(width)
    };
    lemma_exchange_spares(after, at, width_frame());
    if after.len() == at + 6 {
        lemma_exchange_spares(after, at + 3, second);
    }
    assert forall|i: int| at <= i < after.len() implies spares_tx_queue(#[trigger] after[i]) by {
        assert(i == at || i == at + 1 || i == at + 2 || i == at + 3 || i == at + 4 || i == at + 5);
    }
}

/// Taking the next packet from the receive queue spares the transmit
/// queue.
proof fn lemma_next_read_spares<E>(
    before: Seq<Event>,
    after: Seq<Event>,
    r: Result<Option<Payload>, Error<E>>,
)
    requires
        next_read(before, after, r),
    ensures
        tx_queue_spared(before, after),
{
    let at = before.len() as int;
    lemma_exchange_spares(after, at, read_frame::<FifoStatus>());
    if after.len() == at + 3 {
        assert forall|i: int| at <= i < after.len() implies spares_tx_queue(
            #[trigger] after[i],
        ) by {
            assert(i == at || i == at + 1 || i == at + 2);
        }
    } else {
        let asked = after.subrange(0, at + 3);
        assert(asked.subrange(0, at) =~= after.subrange(0, at));
        assert forall|i: int| at <= i < asked.len() implies spares_tx_queue(
            #[trigger] asked[i],
        ) by {
            assert(i == at || i == at + 1 || i == at + 2);
            assert(asked[i] == after[i]);
        }
        assert(tx_queue_spared(before, asked));
        match r {
            Ok(Some(payload)) => {
                lemma_packet_read_spares(asked, after, Ok::<Payload, Error<E>>(payload));
            },
            Ok(None) => {},
            Err(e) => {
                lemma_packet_read_spares(asked, after, Err::<Payload, Error<E>>(e));
            },
        }
        lemma_spared_twice(before, asked, after);
    }
}

/// Emptying the receive queue spares the transmit queue.
proof fn lemma_gathered_spares<E>(
    before: Seq<Event>,
    after: Seq<Event>,
    looks: nat,
    r: Result<Seq<Payload>, Error<E>>,
)
    requires
        gathered(before, after, looks, r),
    ensures
        tx_queue_spared(before, after),
    decreases looks,
{
    if looks == 0 {
        assert(before.subrange(0, before.len() as int) =~= before);
    } else {
        let (middle, first) = choose|middle: Seq<Event>, first: Result<Option<Payload>, Error<E>>|
            {
                &&& #[trigger] next_read(before, middle, first)
                &&& match first {
                    Ok(None) => after == middle && r == Ok::<Seq<Payload>, Error<E>>(Seq::empty()),
                    Ok(Some(payload)) => {
                        &&& starts_with(r, kept(payload))
                        &&& gathered(
                            middle,
                            after,
                            (looks - 1) as nat,
                            without(kept(payload), r),
                        )
                    },
                    Err(e) => after == middle && r == Err::<Seq<Payload>, Error<E>>(e),
                }
            };
        lemma_next_read_spares(before, middle, first);
        match first {
            Ok(Some(payload)) => {
                lemma_gathered_spares(middle, after, (looks - 1) as nat, without(kept(payload), r));
                lemma_spared_twice(before, middle, after);
            },
            _ => {},
        }
    }
}

/// Reading all that has arrived never touches what waits to be sent:
/// whatever the chip answers, nothing that [`NRF24L01::read_all`] puts on
/// the bus flushes the transmit queue or writes a payload, so a payload
/// queued for an acknowledgement stays queued.
pub proof fn lemma_read_all_spares_tx_queue<E>(
    level: Level,
    before: Seq<Event>,
    after: Seq<Event>,
    looks: nat,
    r: Result<Seq<Payload>, Error<E>>,
)
    requires
        all_read(level, before, after, looks, r),
    ensures
        tx_queue_spared(before, after),
{
    let lowered = before.push(Event::CeLow);
    let (middle, packets) = choose|middle: Seq<Event>, packets: Result<Seq<Payload>, Error<E>>|
        {
            &&& #[trigger] gathered(before.push(Event::CeLow), middle, looks, packets)
            &&& match packets {
                Ok(_) => {
                    ||| {
                        &&& r == packets
                        &&& after.len() > 0
                        &&& after.last() == level_event(level)
                        &&& completed(middle, after.drop_last(), write_frame(received_only()))
                    }
                    ||| {
                        &&& r matches Err(Error::SpiError(_))
                        &&& aborted(middle, after, write_frame(received_only()))
                    }
                },
                Err(e) => after == middle && r == packets,
            }
        };
    assert(lowered.subrange(0, before.len() as int) =~= before);
    assert(tx_queue_spared(before, lowered));
    lemma_gathered_spares(lowered, middle, looks, packets);
    lemma_spared_twice(before, lowered, middle);
    assert(0x20u8 | 0x07u8 == 0x27u8) by (bit_vector);
    let clear = write_frame(received_only());
    let at = middle.len() as int;
    if packets is Ok {
        if aborted(middle, after, clear) {
            lemma_exchange_spares(after, at, clear);
            assert forall|i: int| at <= i < after.len() implies spares_tx_queue(
                #[trigger] after[i],
            ) by {
                assert(i == at || i == at + 1 || i == at + 2);
            }
        } else {
            let cleared = after.drop_last();
            lemma_exchange_spares(cleared, at, clear);
            assert(after.subrange(0, at) =~= cleared.subrange(0, at));
            assert forall|i: int| at <= i < after.len() implies spares_tx_queue(
                #[trigger] after[i],
            ) by {
                assert(i == at || i == at + 1 || i == at + 2 || i == at + 3);
                if i < at + 3 {
                    assert(after[i] == cleared[i]);
                }
            }
        }
        assert(tx_queue_spared(middle, after));
        lemma_spared_twice(before, middle, after);
    }
}

/// The views of what a call returned.
pub open spec fn packets_of<E>(r: Result<Vec<Payload>, Error<E>>) -> Result<
    Seq<Payload>,
    Error<E>,
> {
    match r {
        Ok(packets) => Ok(packets@),
        Err(e) => Err(e),
    }
}

impl<CE: DigitalOutput, CSN: DigitalOutput, SPI: FullDuplex> NRF24L01<CE, CSN, SPI> {
    /// Takes the next packet from the receive queue, if there is one.
    pub fn read_next(&mut self) -> (r: Result<Option<Payload>, Error<SPI::Error>>)
        ensures
            final(self).config() == old(self).config(),
            next_read(old(self).trace(), final(self).trace(), r),
    {
        let ghost before = self.trace();
        let ghost at = before.len() as int;
        let available = match self.data_available() {
            Ok(available) => available,
            Err(e) => {
                return Err(e);
            },
        };
        if !available {
            return Ok(None);
        }
        let ghost asked = self.trace();
        let read = read_packet(self);
        proof {
            let last = self.trace();
            assert(last.len() >= asked.len());
            assert(last.subrange(0, asked.len() as int) == asked) by {
                assert(packet_read(asked, last, read));
            }
            assert(last.subrange(0, at + 3) == asked);
            assert(last.subrange(0, at) =~= last.subrange(0, at + 3).subrange(0, at));
            lemma_grown_keeps(asked, last, last.len() - asked.len(), at);
        }
        match read {
            Ok(payload) => Ok(Some(payload)),
            Err(e) => Err(e),
        }
    }

    /// Read data from the receiver queue, one packet at a time.
    ///
    /// Returns the packets read, in the order in which they arrived; a
    /// packet that the chip reports as empty is left out. The queue is
    /// looked at up to 255 times.
    ///
    /// **Note**: this function puts the device in standby mode while it
    /// works through the queue and restores operations when it returns
    /// *successfully*.
    pub fn read_all(&mut self) -> (r: Result<Vec<Payload>, Error<SPI::Error>>)
        ensures
            final(self).config() == old(self).config(),
            all_read(
                old(self).ce_level(),
                old(self).trace(),
                final(self).trace(),
                255,
                packets_of(r),
            ),
    {
        let mut packets: Vec<Payload> = Vec::new();
        // save CE state
        let was_high = self.ce_is_high();
        // Standby
        self.ce_disable();
        let ghost start = self.trace();
        // process queue
        let mut left: u8 = 255;
        let mut more = true;
        while more && left > 0
            invariant
                self.config() == old(self).config(),
                start == old(self).trace().push(Event::CeLow),
                !more ==> gathered(
                    start,
                    self.trace(),
                    255,
                    Ok::<Seq<Payload>, Error<SPI::Error>>(packets@),
                ),
                more ==> forall|
                    end: Seq<Event>,
                    res: Result<Seq<Payload>, Error<SPI::Error>>,
                | #[trigger]
                    gathered(self.trace(), end, left as nat, res) ==> gathered(
                        start,
                        end,
                        255,
                        and_then(packets@, res),
                    ),
            decreases left,
        {
            let ghost here = self.trace();
            let ghost had = left as nat;
            let ghost got = packets@;
            let read = self.read_next();
            let ghost there = self.trace();
            let ghost first = read;
            left = left - 1;
            match read {
                Ok(Some(payload)) => {
                    if payload.len() != 0 {
                        packets.push(payload);
                    }
                    assert(packets@ =~= got + kept(payload));
                    assert forall|
                        end: Seq<Event>,
                        res: Result<Seq<Payload>, Error<SPI::Error>>,
                    | #[trigger]
                        gathered(there, end, left as nat, res) implies gathered(
                        start,
                        end,
                        255,
                        and_then(packets@, res),
                    ) by {
                        let longer = and_then(kept(payload), res);
                        assert(next_read(here, there, first));
                        assert(without(kept(payload), longer) == res) by {
                            if let Ok(rest) = res {
                                assert((kept(payload) + rest).skip(kept(payload).len() as int)
                                    =~= rest);
                            }
                        }
                        assert(starts_with(longer, kept(payload))) by {
                            if let Ok(rest) = res {
                                assert((kept(payload) + rest).subrange(
                                    0,
                                    kept(payload).len() as int,
                                ) =~= kept(payload));
                            }
                        }
                        assert(gathered(here, end, had, longer));
                        match res {
                            Ok(rest) => {
                                assert(got + (kept(payload) + rest) =~= packets@ + rest);
                            },
                            Err(_) => {},
                        }
                    }
                },
                Ok(None) => {
                    more = false;
                    proof {
                        let nothing = Ok::<Seq<Payload>, Error<SPI::Error>>(Seq::empty());
                        assert(next_read(here, there, first));
                        assert(gathered(here, there, had, nothing));
                        assert(packets@ + Seq::<Payload>::empty() =~= packets@);
                    }
                },
                Err(e) => {
                    proof {
                        let failed = Err::<Seq<Payload>, Error<SPI::Error>>(e);
                        assert(next_read(here, there, first));
                        assert(gathered(here, there, had, failed));
                        assert(gathered(start, there, 255, failed));
                    }
                    return Err(e);
                },
            }
        }
        proof {
            if more {
                let nothing = Ok::<Seq<Payload>, Error<SPI::Error>>(Seq::empty());
                assert(gathered(self.trace(), self.trace(), 0, nothing));
                assert(packets@ + Seq::<Payload>::empty() =~= packets@);
            }
        }
        let ghost emptied = self.trace();
        // Clear interrupt
        match self.write_register(Status(0x40)) {
            Ok(_) => {},
            Err(e) => {
                return Err(e);
            },
        }
        let ghost cleared = self.trace();
        // Restore previous CE state
        if was_high {
            self.ce_enable();
        } else {
            self.ce_disable();
        }
        assert(self.trace().drop_last() =~= cleared);
        Ok(packets)
    }
}

/// Number of channels of the band.
pub const CHANNELS: usize = 126;

/// What listening on one channel does and returns, for a chip in the
/// receiver role or not. The channel is set, CE is raised if the chip is a
/// receiver, `wait_ms` milliseconds pass, CE is lowered, and the carrier
/// detect register is read. The result tells whether it held anything.
pub open spec fn probed<E>(
    receiver: bool,
    wait_ms: u32,
    channel: u8,
    before: Seq<Event>,
    after: Seq<Event>,
    r: Result<bool, Error<E>>,
) -> bool {
    let at = before.len() as int;
    let waited: int = if receiver {
        at + 4
    } else {
        at + 3
    };
    let listened = {
        &&& completed_at(after, at, write_frame(RfCh(channel)))
        &&& extends_by(before, after, waited + 5 - at)
        &&& receiver ==> after[at + 3] == Event::CeHigh
        &&& after[waited] == Event::Pause { micros: wait_ms as nat * 1000 }
        &&& after[waited + 1] == Event::CeLow
    };
    match r {
        Ok(carrier) => {
            &&& listened
            &&& completed_at(after, waited + 2, read_frame::<CD>())
            &&& carrier == (register_in::<CD>(reply_at(after, waited + 2)).0 > 0)
        },
        Err(e) => {
            &&& e is SpiError
            &&& {
                ||| aborted(before, after, write_frame(RfCh(channel)))
                ||| listened && failed_at(after, waited + 2, read_frame::<CD>())
            }
        },
    }
}

/// `table` with the count of `channel` one higher where a carrier was
/// found.
pub open spec fn counted(table: Seq<u32>, channel: int, carrier: bool) -> Seq<u32> {
    if carrier {
        table.update(channel, (table[channel] + 1) as u32)
    } else {
        table
    }
}

/// What sweeping the band does, from `channel` on in the present round
/// and for `rounds` rounds in all, this one included. Each channel is
/// listened on as [`probed`] says, and counted in the table where a
/// carrier was found. An error ends the sweep, and the table stays as it
/// is by then.
pub open spec fn swept<E>(
    receiver: bool,
    wait_ms: u32,
    before: Seq<Event>,
    after: Seq<Event>,
    rounds: nat,
    channel: u8,
    table: Seq<u32>,
    table_after: Seq<u32>,
    r: Result<(), Error<E>>,
) -> bool
    decreases rounds, CHANNELS - channel,
{
    if rounds == 0 {
        after == before && table_after == table && r is Ok
    } else if channel >= CHANNELS {
        swept(receiver, wait_ms, before, after, (rounds - 1) as nat, 0, table, table_after, r)
    } else {
        exists|middle: Seq<Event>, first: Result<bool, Error<E>>|
            {
                &&& #[trigger] probed(receiver, wait_ms, channel, before, middle, first)
                &&& match first {
                    Ok(carrier) => swept(
                        receiver,
                        wait_ms,
                        middle,
                        after,
                        rounds,
                        (channel + 1) as u8,
                        counted(table, channel as int, carrier),
                        table_after,
                        r,
                    ),
                    Err(e) => {
                        &&& after == middle
                        &&& table_after == table
                        &&& r == Err::<(), Error<E>>(e)
                    },
                }
            }
    }
}

/// What scanning does: automatic acknowledgement is switched off on all
/// pipes, and the band is swept `nb_iter` times as [`swept`] says.
pub open spec fn scanned<E>(
    receiver: bool,
    wait_ms: u32,
    before: Seq<Event>,
    after: Seq<Event>,
    nb_iter: u32,
    table: Seq<u32>,
    table_after: Seq<u32>,
    r: Result<(), Error<E>>,
) -> bool {
    ||| {
        &&& r matches Err(Error::SpiError(_))
        &&& aborted(before, after, write_frame(EnAa(0)))
        &&& table_after == table
    }
    ||| {
        &&& before.len() + 3 <= after.len()
        &&& completed(before, after.subrange(0, before.len() as int + 3), write_frame(EnAa(0)))
        &&& swept(
            receiver,
            wait_ms,
            after.subrange(0, before.len() as int + 3),
            after,
            nb_iter as nat,
            0,
            table,
            table_after,
            r,
        )
    }
}

impl<CE: DigitalOutput, CSN: DigitalOutput, SPI: FullDuplex> NRF24L01<CE, CSN, SPI> {
    /// Listens on one channel for `wait_ms` milliseconds and tells whether
    /// a carrier was found.
    fn probe<T: Delay>(&mut self, timer: &mut T, channel: u8, wait_ms: u32) -> (r: Result<
        bool,
        Error<SPI::Error>,
    >)
        requires
            channel < CHANNELS,
        ensures
            final(self).config() == old(self).config(),
            probed(
                old(self).config().prim_rx(),
                wait_ms,
                channel,
                old(self).trace(),
                final(self).trace(),
                r,
            ),
    {
        let ghost before = self.trace();
        let ghost at = before.len() as int;
        let ghost receiver = self.config().prim_rx();
        let register = rf_ch(channel);
        match self.write_register(register) {
            Ok(_) => {},
            Err(e) => {
                return Err(e);
            },
        }
        let ghost tuned = self.trace();
        self.listen();
        self.pause_ms(timer, wait_ms);
        self.standby();
        let ghost stood = self.trace();
        let ghost waited: int = if receiver {
            at + 4
        } else {
            at + 3
        };
        proof {
            assert(stood.subrange(0, tuned.len() as int) =~= tuned);
            lemma_grown_twice(before, tuned, stood, 3, waited + 2 - at - 3);
            lemma_grown_keeps(tuned, stood, waited + 2 - at - 3, at);
        }
        let read = self.read_register::<CD>();
        proof {
            let last = self.trace();
            lemma_grown_twice(before, stood, last, waited + 2 - at, 3);
            lemma_grown_keeps(stood, last, 3, at);
            assert(forall|i: int| at + 3 <= i < waited + 2 ==> last[i] == last.subrange(
                0,
                stood.len() as int,
            )[i]);
        }
        match read {
            Ok((_, rpd)) => Ok(rpd.0 > 0),
            Err(e) => Err(e),
        }
    }

    /// Scan all channels.
    ///
    /// This function scans all channels `nb_iter` times, waiting `wait_ms`
    /// milliseconds for a carrier on each. The number of times a carrier has been
    /// detected is added to the `channel_table` array at the corresponding index,
    /// which must have room for it.
    ///
    /// You don't need to call `.configure` before using this function, but
    /// you must do it after if you plan to use the device as a receiver or
    /// transmitter.
    pub fn scan<T: Delay>(
        &mut self,
        timer: &mut T,
        nb_iter: u32,
        wait_ms: u32,
        channel_table: &mut [u32; CHANNELS],
    ) -> (r: Result<(), Error<SPI::Error>>)
        requires
            forall|c: int| 0 <= c < CHANNELS ==> old(channel_table)@[c] + nb_iter <= u32::MAX,
        ensures
            final(self).config() == old(self).config(),
            scanned(
                old(self).config().prim_rx(),
                wait_ms,
                old(self).trace(),
                final(self).trace(),
                nb_iter,
                old(channel_table)@,
                final(channel_table)@,
                r,
            ),
    {
        let ghost before = self.trace();
        let ghost receiver = self.config().prim_rx();
        let ghost table = channel_table@;
        match self.write_register(EnAa(0)) {
            Ok(_) => {},
            Err(e) => {
                return Err(e);
            },
        }
        let ghost start = self.trace();
        assert(start.subrange(0, before.len() as int + 3) =~= start);
        let mut round: u32 = 0;
        while round < nb_iter
            invariant
                round <= nb_iter,
                self.config() == old(self).config(),
                receiver == old(self).config().prim_rx(),
                before == old(self).trace(),
                table == old(channel_table)@,
                completed(before, start, write_frame(EnAa(0))),
                self.trace().len() >= start.len(),
                self.trace().subrange(0, start.len() as int) == start,
                forall|c: int|
                    0 <= c < CHANNELS ==> channel_table@[c] + (nb_iter - round) <= u32::MAX,
                forall|
                    end: Seq<Event>,
                    table_end: Seq<u32>,
                    res: Result<(), Error<SPI::Error>>,
                | #[trigger]
                    swept(
                        receiver,
                        wait_ms,
                        self.trace(),
                        end,
                        (nb_iter - round) as nat,
                        0,
                        channel_table@,
                        table_end,
                        res,
                    ) ==> swept(
                        receiver,
                        wait_ms,
                        start,
                        end,
                        nb_iter as nat,
                        0,
                        table,
                        table_end,
                        res,
                    ),
            decreases nb_iter - round,
        {
            let ghost rounds = (nb_iter - round) as nat;
            let mut channel: u8 = 0;
            while (channel as usize) < CHANNELS
                invariant
                    channel <= CHANNELS,
                    round < nb_iter,
                    rounds == (nb_iter - round) as nat,
                    self.config() == old(self).config(),
                    receiver == old(self).config().prim_rx(),
                    before == old(self).trace(),
                    table == old(channel_table)@,
                    completed(before, start, write_frame(EnAa(0))),
                    self.trace().len() >= start.len(),
                    self.trace().subrange(0, start.len() as int) == start,
                    forall|c: int|
                        0 <= c < CHANNELS ==> channel_table@[c] + (nb_iter - round) - (if c
                            < channel {
                            1int
                        } else {
                            0int
                        }) <= u32::MAX,
                    forall|
                        end: Seq<Event>,
                        table_end: Seq<u32>,
                        res: Result<(), Error<SPI::Error>>,
                    | #[trigger]
                        swept(
                            receiver,
                            wait_ms,
                            self.trace(),
                            end,
                            rounds,
                            channel,
                            channel_table@,
                            table_end,
                            res,
                        ) ==> swept(
                            receiver,
                            wait_ms,
                            start,
                            end,
                            nb_iter as nat,
                            0,
                            table,
                            table_end,
                            res,
                        ),
                decreases CHANNELS - channel,
            {
                let ghost here = self.trace();
                let ghost counts = channel_table@;
                let found = self.probe(timer, channel, wait_ms);
                let ghost there = self.trace();
                let ghost first = found;
                proof {
                    assert(there.len() >= here.len() && there.subrange(0, here.len() as int)
                        == here) by {
                        assert(probed(receiver, wait_ms, channel, here, there, first));
                    }
                    assert(there.subrange(0, start.len() as int) =~= there.subrange(
                        0,
                        here.len() as int,
                    ).subrange(0, start.len() as int));
                }
                match found {
                    Ok(carrier) => {
                        if carrier {
                            channel_table[channel as usize] = channel_table[channel as usize] + 1;
                        }
                        assert(channel_table@ =~= counted(counts, channel as int, carrier));
                        assert forall|
                            end: Seq<Event>,
                            table_end: Seq<u32>,
                            res: Result<(), Error<SPI::Error>>,
                        | #[trigger]
                            swept(
                                receiver,
                                wait_ms,
                                there,
                                end,
                                rounds,
                                (channel + 1) as u8,
                                channel_table@,
                                table_end,
                                res,
                            ) implies swept(
                            receiver,
                            wait_ms,
                            start,
                            end,
                            nb_iter as nat,
                            0,
                            table,
                            table_end,
                            res,
                        ) by {
                            assert(probed(receiver, wait_ms, channel, here, there, first));
                            assert(swept(
                                receiver,
                                wait_ms,
                                here,
                                end,
                                rounds,
                                channel,
                                counts,
                                table_end,
                                res,
                            ));
                        }
                        channel = channel + 1;
                    },
                    Err(e) => {
                        proof {
                            let failed = Err::<(), Error<SPI::Error>>(e);
                            assert(probed(receiver, wait_ms, channel, here, there, first));
                            assert(swept(
                                receiver,
                                wait_ms,
                                here,
                                there,
                                rounds,
                                channel,
                                counts,
                                counts,
                                failed,
                            ));
                            assert(there.subrange(0, before.len() as int + 3) =~= start);
                        }
                        return Err(e);
                    },
                }
            }
            round = round + 1;
            assert forall|
                end: Seq<Event>,
                table_end: Seq<u32>,
                res: Result<(), Error<SPI::Error>>,
            | #[trigger]
                swept(
                    receiver,
                    wait_ms,
                    self.trace(),
                    end,
                    (nb_iter - round) as nat,
                    0,
                    channel_table@,
                    table_end,
                    res,
                ) implies swept(
                receiver,
                wait_ms,
                start,
                end,
                nb_iter as nat,
                0,
                table,
                table_end,
                res,
            ) by {
                assert(swept(
                    receiver,
                    wait_ms,
                    self.trace(),
                    end,
                    rounds,
                    CHANNELS as u8,
                    channel_table@,
                    table_end,
                    res,
                ));
            }
        }
        proof {
            let done = Ok::<(), Error<SPI::Error>>(());
            assert(swept(
                receiver,
                wait_ms,
                self.trace(),
                self.trace(),
                (nb_iter - round) as nat,
                0,
                channel_table@,
                channel_table@,
                done,
            ));
            assert(self.trace().subrange(0, before.len() as int + 3) =~= start);
        }
        Ok(())
    }
}

} // verus!
