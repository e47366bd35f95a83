//! A whole turn of a tunnel: its steps one after the other, from the first to
//! the last.
use vstd::prelude::*;

use crate::protocol::UDP_BUF;
use crate::stream::WriteOutcome;
use crate::tunnel::TunnelModel;
use crate::turn::{AskModel, EventModel, Next, Phase, TurnModel};

verus! {

/// What came of the first steps of a turn.
#[verifier::ext_equal]
pub struct RunModel {
    pub turn: TurnModel,
    pub tunnel: TunnelModel,
    /// The lines that were logged.
    pub log: Seq<Seq<char>>,
    /// What each step asked for.
    pub asks: Seq<AskModel>,
    /// The frames that were sent.
    pub sent: Seq<Seq<u8>>,
    /// The frames that Steam took.
    pub taken: Seq<Seq<u8>>,
}

impl RunModel {
    /// Before the first step.
    pub open spec fn begun(t: TunnelModel) -> RunModel {
        RunModel {
            turn: TurnModel::fresh(),
            tunnel: t,
            log: Seq::empty(),
            asks: Seq::empty(),
            sent: Seq::empty(),
            taken: Seq::empty(),
        }
    }

    /// After one more step.
    pub open spec fn stepped(self, event: EventModel, psk: Seq<char>, now: u64) -> RunModel {
        let s = self.turn.step(self.tunnel, event, psk, now);
        RunModel {
            turn: s.turn,
            tunnel: s.tunnel,
            log: self.log + s.log,
            asks: self.asks.push(s.ask),
            sent: self.sent + crate::order::produced(self.turn, self.tunnel, event, psk, now),
            taken: self.taken + crate::order::taken(self.turn, self.tunnel, event),
        }
    }
}

/// The steps of a turn, each on an event and at a time.
#[verifier::opaque]
pub open spec fn run(t: TunnelModel, events: Seq<(EventModel, u64)>, psk: Seq<char>) -> RunModel
    decreases events.len(),
{
    if events.len() == 0 {
        RunModel::begun(t)
    } else {
        run(t, events.drop_last(), psk).stepped(events.last().0, psk, events.last().1)
    }
}

/// Whether an event is an answer to what the turn asked for that can be: no
/// more was written than waited, and no datagram is longer than the buffer.
pub open spec fn fits(turn: TurnModel, t: TunnelModel, event: EventModel) -> bool {
    &&& crate::order::answers(turn, event)
    &&& t.streams.len() <= usize::MAX
    &&& match (turn.phase, event) {
        (Phase::Writing { stream }, EventModel::Wrote(WriteOutcome::Wrote(n))) => n
            <= t.streams[stream as int].tcp_out.len(),
        (Phase::Reading { stream, udp, left }, EventModel::Data(d)) => udp ==> d.len() <= UDP_BUF,
        _ => true,
    }
}

/// Whether every event of a turn fits.
pub open spec fn fitting(t: TunnelModel, events: Seq<(EventModel, u64)>, psk: Seq<char>) -> bool
    decreases events.len(),
{
    events.len() == 0 || {
        let r = run(t, events.drop_last(), psk);
        fitting(t, events.drop_last(), psk) && fits(r.turn, r.tunnel, events.last().0)
    }
}

/// Whether a turn has had all streams and drops the dead ones next.
pub open spec fn sweeping(turn: TurnModel, t: TunnelModel) -> bool {
    turn.phase matches Phase::Stream { stream } && stream >= t.streams.len()
}

/// Whether a turn has dropped the dead streams, or is over.
pub open spec fn ending(phase: Phase) -> bool {
    match phase {
        Phase::Outbox { next } => next == Next::End,
        Phase::Offering { next } => next == Next::End,
        Phase::End => true,
        _ => false,
    }
}

/// What the steps from the sweep on do, `before` being the state ahead of it:
/// the live streams are left, in their order; each dead one has a line in the
/// log; and after what waited comes a close frame for each that the peer is
/// told of, all of it taken by Steam or still in flight.
pub open spec fn has_swept(before: RunModel, after: RunModel) -> bool {
    let t = before.tunnel;
    &&& sweeping(before.turn, t)
    &&& after.tunnel.streams == crate::lists::kept(t.streams, crate::tunnel::alive())
    &&& after.log == before.log + crate::lists::kept(
        t.streams,
        crate::tunnel::has_died(),
    ).map_values(crate::tunnel::closing_line(t.id))
    &&& after.taken + crate::order::in_flight(after.turn, after.tunnel) == before.taken + t.pending
        + crate::lists::kept(t.streams, crate::tunnel::is_told()).map_values(
        crate::tunnel::closing_frame(),
    )
}

/// Whether `t` has the streams of `from`, by their ids and in their order, and
/// perhaps more after them.
pub open spec fn extends(from: TunnelModel, t: TunnelModel) -> bool {
    from.id == t.id && crate::order::ids(from).is_prefix_of(crate::order::ids(t))
}

/// Whether a turn is orderly.
#[verifier::opaque]
spec fn steady(turn: TurnModel, t: TunnelModel) -> bool {
    crate::order::orderly(turn, t)
}

/// Taking what arrived drops no stream, and ends the turn only with the tunnel.
proof fn lemma_arrivals(
    turn: TurnModel,
    t: TunnelModel,
    event: EventModel,
    psk: Seq<char>,
    now: u64,
)
    requires
        steady(turn, t),
        fits(turn, t, event),
        !sweeping(turn, t),
        !ending(turn.phase),
        crate::order::stream_at(turn.phase) is None,
    ensures
        ({
            let s = turn.step(t, event, psk, now);
            &&& extends(t, s.tunnel)
            &&& ending(s.turn.phase) ==> s.turn.phase is End && s.tunnel.dead is Some
        }),
{
    reveal(steady);
    crate::order::law_turn_continues(turn, t, event, psk, now);
    let s = turn.step(t, event, psk, now);
    match turn.phase {
        Phase::Start => {
            reveal(TurnModel::retrying);
        },
        Phase::Retry => {
            reveal(TurnModel::retrying);
        },
        Phase::Inbox => {
            reveal(TurnModel::on_inbox);
            reveal(TurnModel::acting);
            if turn.inbox.len() > 0 {
                crate::order::lemma_message(t, turn.inbox[0], psk, now);
            }
        },
        Phase::Opening { sid } => {
            reveal(TurnModel::acting);
        },
        Phase::OpeningFlow { sid } => {
            reveal(TurnModel::acting);
            let u = t.with_stream(t.host_stream(sid, now));
            crate::order::lemma_data(u, sid, turn.held, now);
            crate::order::lemma_data(t, sid, turn.held, now);
        },
        Phase::Outbox { next } => {
            reveal(TurnModel::on_outbox);
        },
        Phase::Offering { next } => {
            reveal(TurnModel::on_offered);
        },
        _ => {},
    }
    assert(crate::order::ids(t).is_prefix_of(crate::order::ids(s.tunnel)));
}

/// Serving a stream drops none, and does not end the turn.
proof fn lemma_serving(
    turn: TurnModel,
    t: TunnelModel,
    event: EventModel,
    psk: Seq<char>,
    now: u64,
)
    requires
        steady(turn, t),
        fits(turn, t, event),
        !sweeping(turn, t),
        !ending(turn.phase),
        crate::order::stream_at(turn.phase) is Some,
    ensures
        ({
            let s = turn.step(t, event, psk, now);
            &&& extends(t, s.tunnel)
            &&& ending(s.turn.phase) ==> s.turn.phase is End && s.tunnel.dead is Some
        }),
{
    reveal(steady);
    crate::order::law_turn_continues(turn, t, event, psk, now);
    let s = turn.step(t, event, psk, now);
    match turn.phase {
        Phase::Outbox { next } => {
            reveal(TurnModel::on_outbox);
        },
        Phase::Offering { next } => {
            reveal(TurnModel::on_offered);
        },
        Phase::Stream { stream } => {
            reveal(TurnModel::on_stream);
            reveal(TurnModel::flushing);
        },
        Phase::Writing { stream } => {
            reveal(TurnModel::on_wrote);
            reveal(TurnModel::flushing);
        },
        Phase::Settle { stream } => {
            reveal(TurnModel::on_settle);
        },
        Phase::Read { .. } => {
            reveal(TurnModel::on_read);
        },
        Phase::Reading { .. } => {
            reveal(TurnModel::on_tcp_data);
            reveal(TurnModel::on_udp_data);
            reveal(TurnModel::on_read_end);
        },
        Phase::SendingTcp { .. } => {
            reveal(TurnModel::on_tcp_sent);
        },
        Phase::SendingUdp { .. } => {
            reveal(TurnModel::on_udp_sent);
        },
        Phase::Conclude { .. } => {
            reveal(TurnModel::on_conclude);
        },
        _ => {},
    }
    assert(crate::order::ids(t) =~= crate::order::ids(s.tunnel));
}

/// After the sweep a step drops no stream, logs nothing and moves no frame.
proof fn lemma_past(turn: TurnModel, t: TunnelModel, event: EventModel, psk: Seq<char>, now: u64)
    requires
        steady(turn, t),
        fits(turn, t, event),
        ending(turn.phase),
    ensures
        ({
            let s = turn.step(t, event, psk, now);
            &&& ending(s.turn.phase)
            &&& s.tunnel.streams == t.streams
            &&& s.tunnel.dead == t.dead
            &&& s.log.len() == 0
            &&& crate::order::taken(turn, t, event) + crate::order::in_flight(s.turn, s.tunnel)
                == crate::order::in_flight(turn, t)
        }),
{
    let s = turn.step(t, event, psk, now);
    reveal(steady);
    reveal(TurnModel::on_outbox);
    reveal(TurnModel::on_offered);
    match turn.phase {
        Phase::Outbox { next } => crate::order::lemma_outbox(turn, t, event, psk, now),
        Phase::Offering { next } => crate::order::lemma_offering(turn, t, event, psk, now),
        _ => crate::order::lemma_start(turn, t, event, psk, now),
    }
    let none = crate::order::produced(turn, t, event, psk, now);
    assert(none =~= Seq::empty());
    assert(crate::order::in_flight(turn, t) + none =~= crate::order::in_flight(turn, t));
}

/// The sweep itself.
proof fn lemma_sweep(before: RunModel, event: EventModel, psk: Seq<char>, now: u64)
    requires
        steady(before.turn, before.tunnel),
        fits(before.turn, before.tunnel, event),
        sweeping(before.turn, before.tunnel),
    ensures
        ending(before.stepped(event, psk, now).turn.phase),
        has_swept(before, before.stepped(event, psk, now)),
{
    reveal(steady);
    reveal(TurnModel::on_stream);
    let (turn, t) = (before.turn, before.tunnel);
    let s = turn.step(t, event, psk, now);
    crate::order::lemma_stream(turn, t, event, psk, now);
    crate::laws::law_sweep_accounts(t.id, t.streams);
    let frames = crate::tunnel::closing_frames(t.streams);
    let flight = crate::order::in_flight(s.turn, s.tunnel);
    assert(flight =~= t.pending + frames);
    assert(before.taken + crate::order::taken(turn, t, event) + flight =~= before.taken + t.pending
        + frames);
}

/// What the sweep did stays.
proof fn lemma_swept_stays(
    before: RunModel,
    r: RunModel,
    event: EventModel,
    psk: Seq<char>,
    now: u64,
)
    requires
        steady(r.turn, r.tunnel),
        fits(r.turn, r.tunnel, event),
        ending(r.turn.phase),
        has_swept(before, r),
    ensures
        has_swept(before, r.stepped(event, psk, now)),
{
    lemma_past(r.turn, r.tunnel, event, psk, now);
    let s = r.turn.step(r.tunnel, event, psk, now);
    let x = crate::order::taken(r.turn, r.tunnel, event);
    let y = crate::order::in_flight(s.turn, s.tunnel);
    assert(r.log + s.log =~= r.log);
    assert(r.taken + x + y =~= r.taken + (x + y));
}

/// Whether the sweep of a turn came after its first `k` steps.
pub open spec fn swept_after(
    t: TunnelModel,
    events: Seq<(EventModel, u64)>,
    psk: Seq<char>,
    k: int,
) -> bool {
    let before = run(t, events.take(k), psk);
    &&& extends(t, before.tunnel)
    &&& has_swept(before, run(t, events, psk))
}

/// How far a turn has come is known: ahead of its sweep with all streams there,
/// or past it, or over because its tunnel is dead.
spec fn on_course(t: TunnelModel, events: Seq<(EventModel, u64)>, psk: Seq<char>) -> bool {
    let r = run(t, events, psk);
    &&& steady(r.turn, r.tunnel)
    &&& if ending(r.turn.phase) {
        (r.turn.phase is End && r.tunnel.dead is Some) || exists|k: int|
            0 <= k < events.len() && #[trigger] swept_after(t, events, psk, k)
    } else {
        extends(t, r.tunnel)
    }
}

/// A step of a steady turn leaves it steady, and loses and moves nothing.
proof fn lemma_steady(turn: TurnModel, t: TunnelModel, event: EventModel, psk: Seq<char>, now: u64)
    requires
        steady(turn, t),
        fits(turn, t, event),
    ensures
        steady(turn.step(t, event, psk, now).turn, turn.step(t, event, psk, now).tunnel),
        crate::order::keeps_list(turn, t, event, psk, now),
{
    reveal(steady);
    crate::order::law_turn_keeps_order(turn, t, event, psk, now);
}

pub(crate) proof fn lemma_run_step(t: TunnelModel, events: Seq<(EventModel, u64)>, psk: Seq<char>)
    ensures
        events.len() == 0 ==> run(t, events, psk) == RunModel::begun(t),
        events.len() > 0 ==> run(t, events, psk) == run(t, events.drop_last(), psk).stepped(
            events.last().0,
            psk,
            events.last().1,
        ),
{
    reveal(run);
}

/// A turn on events that fit is on course.
proof fn lemma_run(t: TunnelModel, events: Seq<(EventModel, u64)>, psk: Seq<char>)
    requires
        crate::order::ids(t).no_duplicates(),
        fitting(t, events, psk),
    ensures
        on_course(t, events, psk),
    decreases events.len(),
{
    lemma_run_step(t, events, psk);
    if events.len() == 0 {
        reveal(steady);
        crate::order::law_turn_starts_orderly(t);
    } else {
        let init = events.drop_last();
        let b = run(t, init, psk);
        let (event, now) = events.last();
        lemma_run(t, init, psk);
        lemma_steady(b.turn, b.tunnel, event, psk, now);
        if ending(b.turn.phase) {
            lemma_past(b.turn, b.tunnel, event, psk, now);
            if !(b.turn.phase is End && b.tunnel.dead is Some) {
                let k = choose|k: int|
                    0 <= k < init.len() && #[trigger] swept_after(t, init, psk, k);
                lemma_swept_stays(run(t, init.take(k), psk), b, event, psk, now);
                assert(init.take(k) =~= events.take(k));
                assert(swept_after(t, events, psk, k));
            }
        } else if sweeping(b.turn, b.tunnel) {
            lemma_sweep(b, event, psk, now);
            assert(events.take(init.len() as int) =~= init);
            assert(swept_after(t, events, psk, init.len() as int));
        } else if crate::order::stream_at(b.turn.phase) is None {
            lemma_arrivals(b.turn, b.tunnel, event, psk, now);
        } else {
            lemma_serving(b.turn, b.tunnel, event, psk, now);
        }
    }
}

/// A turn is orderly all along, and ahead of its sweep all streams are there.
pub(crate) proof fn lemma_course(t: TunnelModel, events: Seq<(EventModel, u64)>, psk: Seq<char>)
    requires
        crate::order::ids(t).no_duplicates(),
        fitting(t, events, psk),
    ensures
        ({
            let r = run(t, events, psk);
            &&& crate::order::orderly(r.turn, r.tunnel)
            &&& !ending(r.turn.phase) ==> extends(t, r.tunnel)
        }),
{
    lemma_run(t, events, psk);
    reveal(steady);
}

/// Up to the sweep, and after it, a step leaves every stream in its place.
pub(crate) proof fn lemma_stays(
    turn: TurnModel,
    t: TunnelModel,
    event: EventModel,
    psk: Seq<char>,
    now: u64,
)
    requires
        crate::order::orderly(turn, t),
        fits(turn, t, event),
        !sweeping(turn, t),
    ensures
        crate::order::ids(t).is_prefix_of(
            crate::order::ids(turn.step(t, event, psk, now).tunnel),
        ),
        ending(turn.phase) ==> turn.step(t, event, psk, now).tunnel.streams == t.streams,
{
    reveal(steady);
    if ending(turn.phase) {
        lemma_past(turn, t, event, psk, now);
    } else if crate::order::stream_at(turn.phase) is None {
        lemma_arrivals(turn, t, event, psk, now);
    } else {
        lemma_serving(turn, t, event, psk, now);
    }
}

/// A whole turn that leaves the tunnel alive drops the dead streams once, at
/// its end. No stream is lost ahead of that. Afterwards every stream is alive,
/// and they are those that were alive, in their order. The log ends with a line
/// for each stream that was dropped. What Steam took and what still waits ends
/// with a close frame for each of them that the peer cannot know of.
pub proof fn law_whole_turn_sweeps(t: TunnelModel, events: Seq<(EventModel, u64)>, psk: Seq<char>)
    requires
        crate::order::ids(t).no_duplicates(),
        fitting(t, events, psk),
        run(t, events, psk).turn.phase is End,
        run(t, events, psk).tunnel.dead is None,
    ensures
        exists|k: int| 0 <= k < events.len() && #[trigger] swept_after(t, events, psk, k),
        ({
            let r = run(t, events, psk);
            &&& crate::order::in_flight(r.turn, r.tunnel) == r.tunnel.pending
            &&& forall|i: int|
                0 <= i < r.tunnel.streams.len() ==> (#[trigger] r.tunnel.streams[i]).dead is None
        }),
{
    lemma_run(t, events, psk);
    let r = run(t, events, psk);
    let k = choose|k: int| 0 <= k < events.len() && #[trigger] swept_after(t, events, psk, k);
    let all = run(t, events.take(k), psk).tunnel.streams;
    let left = r.tunnel.streams;
    assert(crate::order::in_flight(r.turn, r.tunnel) =~= r.tunnel.pending) by {
        reveal(steady);
    }
    assert forall|i: int| 0 <= i < left.len() implies (#[trigger] left[i]).dead is None by {
        crate::lists::lemma_kept(all, crate::tunnel::alive());
        assert(left.contains(left[i]));
        assert(crate::tunnel::alive()(left[i]));
    }
}

/// In a whole turn what is sent reaches Steam in the order in which it was
/// sent, after what waited before, and none of it is lost.
pub proof fn law_whole_turn_keeps_order(
    t: TunnelModel,
    events: Seq<(EventModel, u64)>,
    psk: Seq<char>,
)
    requires
        crate::order::ids(t).no_duplicates(),
        fitting(t, events, psk),
    ensures
        ({
            let r = run(t, events, psk);
            r.taken + crate::order::in_flight(r.turn, r.tunnel) == t.pending + r.sent
        }),
    decreases events.len(),
{
    lemma_run_step(t, events, psk);
    if events.len() == 0 {
        crate::order::law_turn_starts_orderly(t);
        let none = Seq::<Seq<u8>>::empty();
        assert(none + t.pending =~= t.pending + none);
    } else {
        let init = events.drop_last();
        let b = run(t, init, psk);
        let r = run(t, events, psk);
        let (event, now) = events.last();
        law_whole_turn_keeps_order(t, init, psk);
        lemma_run(t, init, psk);
        lemma_steady(b.turn, b.tunnel, event, psk, now);
        let flight = crate::order::in_flight(b.turn, b.tunnel);
        let after = crate::order::in_flight(r.turn, r.tunnel);
        let more = crate::order::produced(b.turn, b.tunnel, event, psk, now);
        let took = crate::order::taken(b.turn, b.tunnel, event);
        assert(b.taken + took + after =~= b.taken + (took + after));
        assert(b.taken + (flight + more) =~= b.taken + flight + more);
        assert(t.pending + b.sent + more =~= t.pending + (b.sent + more));
    }
}

/// While Steam takes nothing, what waits goes on waiting.
proof fn lemma_waiting(turn: TurnModel, t: TunnelModel, event: EventModel, psk: Seq<char>, now: u64)
    requires
        event != EventModel::Sent(true),
    ensures
        t.pending.len() <= turn.step(t, event, psk, now).tunnel.pending.len(),
{
    match turn.phase {
        Phase::Start => {
            reveal(TurnModel::retrying);
        },
        Phase::Retry => {
            reveal(TurnModel::retrying);
        },
        Phase::Inbox => {
            reveal(TurnModel::on_inbox);
            reveal(TurnModel::acting);
            if turn.inbox.len() > 0 {
                crate::order::lemma_message(t, turn.inbox[0], psk, now);
            }
        },
        Phase::Opening { sid } => {
            reveal(TurnModel::acting);
        },
        Phase::OpeningFlow { sid } => {
            reveal(TurnModel::acting);
            let u = t.with_stream(t.host_stream(sid, now));
            crate::order::lemma_data(u, sid, turn.held, now);
            crate::order::lemma_data(t, sid, turn.held, now);
        },
        Phase::Outbox { next } => {
            reveal(TurnModel::on_outbox);
        },
        Phase::Offering { next } => {
            reveal(TurnModel::on_offered);
        },
        Phase::Stream { stream } => {
            reveal(TurnModel::on_stream);
            reveal(TurnModel::flushing);
        },
        Phase::Writing { stream } => {
            reveal(TurnModel::on_wrote);
            reveal(TurnModel::flushing);
        },
        Phase::Settle { stream } => {
            reveal(TurnModel::on_settle);
        },
        Phase::Read { .. } => {
            reveal(TurnModel::on_read);
        },
        Phase::Reading { .. } => {
            reveal(TurnModel::on_tcp_data);
            reveal(TurnModel::on_udp_data);
            reveal(TurnModel::on_read_end);
        },
        Phase::SendingTcp { .. } => {
            reveal(TurnModel::on_tcp_sent);
        },
        Phase::SendingUdp { .. } => {
            reveal(TurnModel::on_udp_sent);
        },
        Phase::Conclude { .. } => {
            reveal(TurnModel::on_conclude);
        },
        _ => {},
    }
}

/// Backpressure over a whole turn: if frames wait when it begins and Steam
/// takes nothing, no local socket is read.
pub proof fn law_waiting_frames_stop_reads(
    t: TunnelModel,
    events: Seq<(EventModel, u64)>,
    psk: Seq<char>,
)
    requires
        crate::order::ids(t).no_duplicates(),
        fitting(t, events, psk),
        t.pending.len() > 0,
        forall|i: int| 0 <= i < events.len() ==> (#[trigger] events[i]).0 != EventModel::Sent(true),
    ensures
        run(t, events, psk).tunnel.pending.len() > 0,
        forall|i: int|
            0 <= i < events.len() ==> !((#[trigger] run(t, events, psk).asks[i]) is ReadTcp)
                && !(run(t, events, psk).asks[i] is ReadUdp),
        run(t, events, psk).asks.len() == events.len(),
    decreases events.len(),
{
    lemma_run_step(t, events, psk);
    if events.len() > 0 {
        let init = events.drop_last();
        let b = run(t, init, psk);
        let (event, now) = events.last();
        assert forall|i: int| 0 <= i < init.len() implies (#[trigger] init[i]).0
            != EventModel::Sent(true) by {
            assert(events[i] == init[i]);
        }
        assert(event == events[events.len() - 1].0);
        law_waiting_frames_stop_reads(t, init, psk);
        lemma_run(t, init, psk);
        lemma_waiting(b.turn, b.tunnel, event, psk, now);
        reveal(steady);
        crate::order::law_backpressure(b.turn, b.tunnel, event, psk, now);
    }
}

} // verus!
