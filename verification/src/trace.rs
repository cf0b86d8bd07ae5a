//! The trace: what the driver has done on its lines and its bus.
//!
//! The driver's effect on the outside world is modelled by the sequence of
//! [`Event`]s it has caused on the CE and CSN lines and on the bus.
//! Contracts say how an operation extends the trace: which frames it clocks
//! out, in which order, bracketed by which line changes. They say nothing
//! about what the chip clocks back, which is recorded in the trace as it
//! came, except how the driver reads it.

use vstd::prelude::*;

verus! {

/// One thing the driver did on its lines or its bus.
pub enum Event {
    /// The CE line was told to go high: the radio listens or transmits.
    CeHigh,
    /// The CE line was told to go low: the radio idles.
    CeLow,
    /// The CSN line was told to go low: an exchange begins.
    CsnLow,
    /// The CSN line was told to go high: the exchange is over.
    CsnHigh,
    /// One transfer clocked `sent` out and `received` in.
    Transfer { sent: Seq<u8>, received: Seq<u8> },
    /// A transfer of `sent` was started and the bus reported an error.
    TransferFailed { sent: Seq<u8> },
    /// The driver let at least `micros` microseconds pass.
    Pause { micros: nat },
}

/// A whole exchange: CSN goes low, one transfer carries the frame out and
/// the reply in, CSN goes high.
pub open spec fn exchange(frame: Seq<u8>, reply: Seq<u8>) -> Seq<Event> {
    seq![Event::CsnLow, Event::Transfer { sent: frame, received: reply }, Event::CsnHigh]
}

/// An exchange that the bus broke off: CSN goes low, the transfer fails,
/// and CSN goes high all the same.
pub open spec fn failed_exchange(frame: Seq<u8>) -> Seq<Event> {
    seq![Event::CsnLow, Event::TransferFailed { sent: frame }, Event::CsnHigh]
}

/// What was clocked in by the exchange whose first event is `trace[at]`.
pub open spec fn reply_at(trace: Seq<Event>, at: int) -> Seq<u8> {
    match trace[at + 1] {
        Event::Transfer { sent, received } => received,
        _ => Seq::empty(),
    }
}

/// The three events of `trace` from `at` on are a completed exchange of
/// `frame`, with a reply of the frame's length.
pub open spec fn completed_at(trace: Seq<Event>, at: int, frame: Seq<u8>) -> bool {
    &&& 0 <= at
    &&& at + 3 <= trace.len()
    &&& trace.subrange(at, at + 3) == exchange(frame, reply_at(trace, at))
    &&& reply_at(trace, at).len() == frame.len()
}

/// The three events of `trace` from `at` on are a failed exchange of
/// `frame`.
pub open spec fn failed_at(trace: Seq<Event>, at: int, frame: Seq<u8>) -> bool {
    &&& 0 <= at
    &&& at + 3 <= trace.len()
    &&& trace.subrange(at, at + 3) == failed_exchange(frame)
}

/// `after` is `before` and then `more` further events.
pub open spec fn extends_by(before: Seq<Event>, after: Seq<Event>, more: int) -> bool {
    &&& 0 <= more
    &&& after.len() == before.len() + more
    &&& after.subrange(0, before.len() as int) == before
}

/// `after` is `before` and then one completed exchange of `frame`.
pub open spec fn completed(before: Seq<Event>, after: Seq<Event>, frame: Seq<u8>) -> bool {
    &&& extends_by(before, after, 3)
    &&& completed_at(after, before.len() as int, frame)
}

/// `after` is `before` and then one failed exchange of `frame`.
pub open spec fn aborted(before: Seq<Event>, after: Seq<Event>, frame: Seq<u8>) -> bool {
    &&& extends_by(before, after, 3)
    &&& failed_at(after, before.len() as int, frame)
}

/// What was clocked in by the exchange that ends `trace`.
pub open spec fn last_reply(trace: Seq<Event>) -> Seq<u8> {
    reply_at(trace, trace.len() - 3)
}

/// `after` is `before` and then one exchange of each of `frames`, in
/// order, all of them completed.
pub open spec fn exchanged_all(
    before: Seq<Event>,
    after: Seq<Event>,
    frames: Seq<Seq<u8>>,
) -> bool {
    &&& extends_by(before, after, 3 * (frames.len() as int))
    &&& forall|k: int|
        0 <= k < frames.len() ==> completed_at(after, before.len() + 3 * k, #[trigger] frames[k])
}

/// `after` is `before` and then the exchanges of `frames` up to number
/// `k`, which failed: those before it completed, and none after it was
/// begun.
pub open spec fn broke_off_at(
    before: Seq<Event>,
    after: Seq<Event>,
    frames: Seq<Seq<u8>>,
    k: int,
) -> bool {
    &&& 0 <= k < frames.len()
    &&& extends_by(before, after, 3 * (k + 1))
    &&& forall|j: int|
        0 <= j < k ==> completed_at(after, before.len() + 3 * j, #[trigger] frames[j])
    &&& failed_at(after, before.len() + 3 * k, frames[k])
}

/// The exchanges of `frames` were run in order and stopped at the first
/// that failed.
pub open spec fn broke_off(before: Seq<Event>, after: Seq<Event>, frames: Seq<Seq<u8>>) -> bool {
    exists|k: int| broke_off_at(before, after, frames, k)
}

/// The exchanges of `frames` were run in order, as far as the bus carried
/// them: all of them where `ok`, else up to the first that failed.
pub open spec fn ran(
    before: Seq<Event>,
    after: Seq<Event>,
    frames: Seq<Seq<u8>>,
    ok: bool,
) -> bool {
    if ok {
        exchanged_all(before, after, frames)
    } else {
        broke_off(before, after, frames)
    }
}

/// An exchange at a place in a trace is still there, with its reply, when
/// the trace has grown.
pub proof fn lemma_grown_keeps(middle: Seq<Event>, after: Seq<Event>, more: int, at: int)
    requires
        extends_by(middle, after, more),
        0 <= at,
        at + 3 <= middle.len(),
    ensures
        after.subrange(at, at + 3) == middle.subrange(at, at + 3),
        reply_at(after, at) == reply_at(middle, at),
        forall|frame: Seq<u8>| completed_at(middle, at, frame) ==> completed_at(after, at, frame),
        forall|frame: Seq<u8>| failed_at(middle, at, frame) ==> failed_at(after, at, frame),
{
    let n = middle.len() as int;
    assert(after.subrange(at, at + 3) =~= after.subrange(0, n).subrange(at, at + 3));
    assert(after[at + 1] == after.subrange(0, n)[at + 1]);
}

/// Growing twice is growing once by the sum.
pub proof fn lemma_grown_twice(
    before: Seq<Event>,
    middle: Seq<Event>,
    after: Seq<Event>,
    first: int,
    second: int,
)
    requires
        extends_by(before, middle, first),
        extends_by(middle, after, second),
    ensures
        extends_by(before, after, first + second),
{
    let n = before.len() as int;
    assert(after.subrange(0, n) =~= after.subrange(0, middle.len() as int).subrange(0, n));
}

/// Nothing has been run yet.
pub proof fn lemma_ran_none(before: Seq<Event>)
    ensures
        exchanged_all(before, before, Seq::empty()),
{
    assert(before.subrange(0, before.len() as int) =~= before);
}

/// After a run of exchanges, one more that completes makes a longer run.
pub proof fn lemma_ran_one_more(
    before: Seq<Event>,
    middle: Seq<Event>,
    after: Seq<Event>,
    frames: Seq<Seq<u8>>,
    frame: Seq<u8>,
)
    requires
        exchanged_all(before, middle, frames),
        completed(middle, after, frame),
    ensures
        exchanged_all(before, after, frames.push(frame)),
{
    let n = before.len() as int;
    let longer = frames.push(frame);
    lemma_grown_twice(before, middle, after, 3 * (frames.len() as int), 3);
    assert forall|k: int| 0 <= k < longer.len() implies completed_at(
        after,
        n + 3 * k,
        #[trigger] longer[k],
    ) by {
        if k < frames.len() {
            assert(completed_at(middle, n + 3 * k, frames[k]));
            lemma_grown_keeps(middle, after, 3, n + 3 * k);
        }
    }
}

/// After a run of exchanges, one more that fails breaks off any script
/// that starts with the run and goes on with the one that failed.
pub proof fn lemma_ran_then_failed(
    before: Seq<Event>,
    middle: Seq<Event>,
    after: Seq<Event>,
    frames: Seq<Seq<u8>>,
    frame: Seq<u8>,
    script: Seq<Seq<u8>>,
)
    requires
        exchanged_all(before, middle, frames),
        aborted(middle, after, frame),
        frames.len() < script.len(),
        script.subrange(0, frames.len() as int) == frames,
        script[frames.len() as int] == frame,
    ensures
        broke_off(before, after, script),
{
    let n = before.len() as int;
    let k = frames.len() as int;
    lemma_grown_twice(before, middle, after, 3 * (frames.len() as int), 3);
    assert forall|j: int| 0 <= j < k implies completed_at(
        after,
        n + 3 * j,
        #[trigger] script[j],
    ) by {
        assert(script[j] == script.subrange(0, k)[j]);
        assert(completed_at(middle, n + 3 * j, frames[j]));
        lemma_grown_keeps(middle, after, 3, n + 3 * j);
    }
    assert(broke_off_at(before, after, script, k));
}

/// In a script that is `done`, then `frame`, then `rest`, the step that
/// follows `done` is `frame`.
pub proof fn lemma_prefix_of(
    script: Seq<Seq<u8>>,
    done: Seq<Seq<u8>>,
    frame: Seq<u8>,
    rest: Seq<Seq<u8>>,
)
    requires
        script == done + seq![frame] + rest,
    ensures
        done.len() < script.len(),
        script.subrange(0, done.len() as int) == done,
        script[done.len() as int] == frame,
        script.subrange(0, done.len() as int + 1) == done.push(frame),
{
    assert(script.subrange(0, done.len() as int) =~= done);
    assert(script.subrange(0, done.len() as int + 1) =~= done.push(frame));
}

} // verus!
