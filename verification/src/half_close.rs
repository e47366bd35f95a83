//! Half-close: a peer that has finished sending is passed on to the local
//! program, and the stream goes on the other way until that has finished too.
use vstd::prelude::*;

use crate::protocol::F_EOF;
use crate::run::RunModel;
use crate::stream::{CloseReason, LocalSock, ReadEnd, StreamModel, WriteOutcome};
use crate::tunnel::{ConnState, TunnelModel};
use crate::turn::{AskModel, EventModel, Next, Phase, TurnModel};

verus! {

/// What acts on a local socket or on Steam, other than looking for input.
pub open spec fn acts() -> spec_fn(AskModel) -> bool {
    |a: AskModel|
        match a {
            AskModel::Continue => false,
            AskModel::Receive => false,
            AskModel::ReadTcp { stream } => false,
            AskModel::ReadUdp { stream } => false,
            AskModel::Finished => false,
            _ => true,
        }
}

/// What a turn did, in order.
pub open spec fn done(r: RunModel) -> Seq<AskModel> {
    crate::lists::kept(r.asks, acts())
}

/// Whether all of a list are writes to the first stream.
pub open spec fn all_writes(asks: Seq<AskModel>) -> bool {
    forall|i: int| 0 <= i < asks.len() ==> (#[trigger] asks[i]) == (AskModel::Write { stream: 0 })
}

/// A tunnel with one stream.
pub open spec fn with_only(t: TunnelModel, s: StreamModel) -> TunnelModel {
    TunnelModel { streams: seq![s], ..t }
}

/// The frame that tells the end of a direction.
pub open spec fn end_frame(s: StreamModel) -> Seq<u8> {
    crate::protocol::frame_bytes(F_EOF, s.id, Seq::empty())
}

/// An open TCP tunnel on which nothing waits and whose only stream is open both
/// ways for what the local program sends.
pub open spec fn flowing(t: TunnelModel, s: StreamModel) -> bool {
    &&& t.state == ConnState::Active
    &&& !t.udp
    &&& t.pending.len() == 0
    &&& t.dead is None
    &&& t.streams == seq![s]
    &&& s.local == Some(LocalSock::Tcp)
    &&& s.dead is None
    &&& s.open_sent
    &&& !s.reset
    &&& !s.tcp_eof
}

/// Whether an event is one of a turn in which the peer's end arrives, the local
/// socket takes every write and has nothing to read.
pub open spec fn peer_ends(s: StreamModel, event: EventModel) -> bool {
    match event {
        EventModel::Messages(ms) => ms == seq![end_frame(s)],
        EventModel::Wrote(w) => w matches WriteOutcome::Wrote(n) && n > 0,
        EventModel::Data(d) => false,
        EventModel::Ended(e) => e == ReadEnd::WouldBlock,
        _ => true,
    }
}

/// Whether an event is one of a turn in which nothing arrives and the local
/// program has finished.
pub open spec fn local_ends(event: EventModel) -> bool {
    match event {
        EventModel::Messages(ms) => ms.len() == 0,
        EventModel::Data(d) => false,
        EventModel::Ended(e) => e == ReadEnd::Eof,
        _ => true,
    }
}

/// The stream once the peer's end is known.
pub open spec fn heard(s: StreamModel) -> StreamModel {
    StreamModel { remote_eof: true, ..s }
}

/// The stream once the peer's end is passed on.
pub open spec fn half_closed(s: StreamModel) -> StreamModel {
    StreamModel { remote_eof: true, wr_shutdown: true, tcp_out: Seq::empty(), ..s }
}

/// How far a turn in which the peer's end arrives has come, `out` being what
/// the local socket took.
spec fn passing_on(t: TunnelModel, s: StreamModel, r: RunModel, out: Seq<u8>) -> bool {
    &&& r.log.len() == 0
    &&& r.sent.len() == 0
    &&& r.taken.len() == 0
    &&& r.turn.outbox.len() == 0
    &&& match r.turn.phase {
        Phase::Start => r.tunnel == t && done(r).len() == 0 && out.len() == 0,
        Phase::Receive => r.tunnel == t && done(r).len() == 0 && out.len() == 0,
        Phase::Inbox => {
            &&& done(r).len() == 0
            &&& out.len() == 0
            &&& if r.turn.inbox.len() == 0 {
                r.tunnel == with_only(t, heard(s))
            } else {
                r.tunnel == t && r.turn.inbox == seq![end_frame(s)]
            }
        },
        Phase::Writing { stream } => {
            let left = r.tunnel.streams[0].tcp_out;
            &&& stream == 0
            &&& r.tunnel == with_only(t, StreamModel { tcp_out: left, ..heard(s) })
            &&& out + left == s.tcp_out
            &&& all_writes(done(r))
        },
        Phase::Settle { stream } => {
            &&& stream == 0
            &&& r.tunnel == with_only(t, StreamModel { tcp_out: Seq::empty(), ..heard(s) })
            &&& out == s.tcp_out
            &&& all_writes(done(r))
        },
        Phase::Stream { stream } => if stream == 0 {
            r.tunnel == with_only(t, heard(s)) && done(r).len() == 0 && out.len() == 0
        } else {
            stream == 1 && passed_on(t, s, r, out)
        },
        Phase::Read { stream, udp, left } => stream == 0 && !udp && passed_on(t, s, r, out),
        Phase::Reading { stream, udp, left } => stream == 0 && !udp && passed_on(t, s, r, out),
        Phase::Conclude { stream } => stream == 0 && passed_on(t, s, r, out),
        Phase::Outbox { next } => next == Next::End && passed_on(t, s, r, out),
        Phase::End => passed_on(t, s, r, out),
        _ => false,
    }
}

/// The peer's end is passed on: all was written, and after that the write half
/// was shut down; nothing else was done.
pub open spec fn passed_on(t: TunnelModel, s: StreamModel, r: RunModel, out: Seq<u8>) -> bool {
    &&& r.tunnel == with_only(t, half_closed(s))
    &&& out == s.tcp_out
    &&& done(r).len() > 0
    &&& done(r).last() == (AskModel::ShutWrite { stream: 0 })
    &&& all_writes(done(r).drop_last())
}

proof fn lemma_done(r: RunModel, event: EventModel, psk: Seq<char>, now: u64)
    ensures
        ({
            let ask = r.turn.step(r.tunnel, event, psk, now).ask;
            done(r.stepped(event, psk, now)) == if acts()(ask) {
                done(r).push(ask)
            } else {
                done(r)
            }
        }),
{
    let ask = r.turn.step(r.tunnel, event, psk, now).ask;
    assert(r.asks.push(ask).drop_last() =~= r.asks);
}

/// The peer's end, on the only stream of a tunnel.
proof fn lemma_end_heard(t: TunnelModel, s: StreamModel, psk: Seq<char>, now: u64)
    requires
        flowing(t, s),
    ensures
        t.on_message(end_frame(s), psk, now) == with_only(t, heard(s)).doing(
            crate::tunnel::ActionModel::Nothing,
        ),
{
    crate::protocol::law_frame_round_trip(F_EOF, s.id, Seq::empty());
    crate::lists::lemma_first_where_is(t.streams, crate::tunnel::live_with_id(s.id), 0);
    assert(t.streams.update(0, heard(s)) =~= seq![heard(s)]);
}

/// Sweeping a tunnel whose only stream is alive changes nothing.
proof fn lemma_nothing_to_sweep(id: u64, s: StreamModel)
    requires
        s.dead is None,
    ensures
        crate::lists::kept(seq![s], crate::tunnel::alive()) == seq![s],
        crate::tunnel::closing_log(id, seq![s]) == Seq::<Seq<char>>::empty(),
        crate::tunnel::closing_frames(seq![s]) == Seq::<Seq<u8>>::empty(),
{
    reveal_with_fuel(crate::lists::kept, 2);
    reveal_with_fuel(crate::tunnel::closing_log, 2);
    reveal_with_fuel(crate::tunnel::closing_frames, 2);
    assert(seq![s].drop_last() =~= Seq::<StreamModel>::empty());
    assert(crate::lists::kept(seq![s], crate::tunnel::alive()) =~= seq![s]);
}

/// Up to the writes.
proof fn lemma_passing_in(
    t: TunnelModel,
    s: StreamModel,
    r: RunModel,
    out: Seq<u8>,
    event: EventModel,
    psk: Seq<char>,
    now: u64,
)
    requires
        flowing(t, s),
        !s.wr_shutdown,
        passing_on(t, s, r, out),
        crate::run::fits(r.turn, r.tunnel, event),
        peer_ends(s, event),
        r.turn.phase is Start || r.turn.phase is Receive || r.turn.phase is Inbox
            || r.turn.phase == (Phase::Stream { stream: 0 }),
    ensures
        passing_on(t, s, r.stepped(event, psk, now), out),
        crate::delivery::wrote(r.turn, r.tunnel, event, s.id) == Seq::<u8>::empty(),
{
    lemma_done(r, event, psk, now);
    let n = r.stepped(event, psk, now);
    reveal(TurnModel::retrying);
    reveal(TurnModel::on_inbox);
    reveal(TurnModel::acting);
    reveal(TurnModel::on_stream);
    reveal(TurnModel::flushing);
    lemma_end_heard(t, s, psk, now);
    if r.turn.phase is Inbox && r.turn.inbox.len() > 0 {
        assert(r.turn.inbox[0] == end_frame(s));
        assert(r.turn.inbox.skip(1) =~= Seq::empty());
    }
    if n.turn.phase is Writing {
        assert(done(n) =~= seq![AskModel::Write { stream: 0 }]);
        assert(out + s.tcp_out =~= s.tcp_out);
        assert(n.tunnel == with_only(t, StreamModel { tcp_out: s.tcp_out, ..heard(s) }));
    }
    if n.turn.phase is Settle {
        assert(s.tcp_out =~= Seq::empty());
        assert(out =~= s.tcp_out);
    }
}

/// The writes.
proof fn lemma_passing_writes(
    t: TunnelModel,
    s: StreamModel,
    r: RunModel,
    out: Seq<u8>,
    event: EventModel,
    psk: Seq<char>,
    now: u64,
)
    requires
        flowing(t, s),
        !s.wr_shutdown,
        passing_on(t, s, r, out),
        crate::run::fits(r.turn, r.tunnel, event),
        peer_ends(s, event),
        r.turn.phase is Writing,
    ensures
        passing_on(
            t,
            s,
            r.stepped(event, psk, now),
            out + crate::delivery::wrote(r.turn, r.tunnel, event, s.id),
        ),
{
    lemma_done(r, event, psk, now);
    let n = r.stepped(event, psk, now);
    reveal(TurnModel::on_wrote);
    reveal(TurnModel::flushing);
    let left = r.tunnel.streams[0].tcp_out;
    let k = event->Wrote_0->Wrote_0 as int;
    let st = StreamModel { tcp_out: left, ..heard(s) };
    let after = StreamModel { tcp_out: left.skip(k), ..heard(s) };
    assert(crate::delivery::wrote(r.turn, r.tunnel, event, s.id) == left.take(k));
    assert(st.written(event->Wrote_0) == after);
    assert(seq![st].update(0, after) =~= seq![after]);
    assert(n.tunnel == with_only(t, after));
    assert(out + left.take(k) + left.skip(k) =~= out + left);
    assert(n.log =~= r.log && n.sent =~= r.sent && n.taken =~= r.taken);
    if n.turn.phase is Settle {
        assert(left.skip(k) =~= Seq::empty());
        assert(out + left.take(k) =~= s.tcp_out);
    }
}

/// Shutting down the write half.
proof fn lemma_passing_shuts(
    t: TunnelModel,
    s: StreamModel,
    r: RunModel,
    out: Seq<u8>,
    event: EventModel,
    psk: Seq<char>,
    now: u64,
)
    requires
        flowing(t, s),
        !s.wr_shutdown,
        passing_on(t, s, r, out),
        crate::run::fits(r.turn, r.tunnel, event),
        peer_ends(s, event),
        r.turn.phase is Settle,
    ensures
        passing_on(t, s, r.stepped(event, psk, now), out),
        crate::delivery::wrote(r.turn, r.tunnel, event, s.id) == Seq::<u8>::empty(),
{
    lemma_done(r, event, psk, now);
    let n = r.stepped(event, psk, now);
    reveal(TurnModel::on_settle);
    let st = StreamModel { tcp_out: Seq::empty(), ..heard(s) };
    assert(st.settled() == half_closed(s));
    assert(seq![st].update(0, half_closed(s)) =~= seq![half_closed(s)]);
    assert(n.tunnel == with_only(t, half_closed(s)));
    assert(done(n) == done(r).push(AskModel::ShutWrite { stream: 0 }));
    assert(done(n).drop_last() =~= done(r));
    assert(n.log =~= r.log && n.sent =~= r.sent && n.taken =~= r.taken);
}

/// From there to the end of the turn.
proof fn lemma_passing_out(
    t: TunnelModel,
    s: StreamModel,
    r: RunModel,
    out: Seq<u8>,
    event: EventModel,
    psk: Seq<char>,
    now: u64,
)
    requires
        flowing(t, s),
        !s.wr_shutdown,
        passing_on(t, s, r, out),
        crate::run::fits(r.turn, r.tunnel, event),
        peer_ends(s, event),
        passed_on(t, s, r, out),
        match r.turn.phase {
            Phase::Read { .. } => true,
            Phase::Reading { .. } => true,
            Phase::Conclude { .. } => true,
            Phase::Stream { stream } => stream == 1,
            Phase::Outbox { .. } => true,
            Phase::End => true,
            _ => false,
        },
    ensures
        passing_on(t, s, r.stepped(event, psk, now), out),
        crate::delivery::wrote(r.turn, r.tunnel, event, s.id) == Seq::<u8>::empty(),
{
    lemma_done(r, event, psk, now);
    let n = r.stepped(event, psk, now);
    reveal(TurnModel::on_read);
    reveal(TurnModel::on_read_end);
    reveal(TurnModel::on_conclude);
    reveal(TurnModel::on_stream);
    reveal(TurnModel::on_outbox);
    let st = half_closed(s);
    assert(seq![st].update(0, st) =~= seq![st]);
    lemma_nothing_to_sweep(t.id, st);
    assert(n.tunnel == with_only(t, st));
    assert(n.log =~= r.log && n.sent =~= r.sent && n.taken =~= r.taken);
}

proof fn lemma_passing(t: TunnelModel, s: StreamModel, events: Seq<(EventModel, u64)>, psk: Seq<char>)
    requires
        flowing(t, s),
        !s.wr_shutdown,
        crate::run::fitting(t, events, psk),
        forall|k: int| 0 <= k < events.len() ==> peer_ends(s, (#[trigger] events[k]).0),
    ensures
        passing_on(
            t,
            s,
            crate::run::run(t, events, psk),
            crate::delivery::all_wrote(t, events, psk, s.id),
        ),
    decreases events.len(),
{
    crate::run::lemma_run_step(t, events, psk);
    if events.len() == 0 {
    } else {
        let init = events.drop_last();
        let b = crate::run::run(t, init, psk);
        let (event, now) = events.last();
        assert forall|k: int| 0 <= k < init.len() implies peer_ends(s, (#[trigger] init[k]).0) by {
            assert(events[k] == init[k]);
        }
        assert(peer_ends(s, events[events.len() - 1].0));
        lemma_passing(t, s, init, psk);
        let out = crate::delivery::all_wrote(t, init, psk, s.id);
        match b.turn.phase {
            Phase::Writing { .. } => {
                lemma_passing_writes(t, s, b, out, event, psk, now);
            },
            Phase::Settle { .. } => {
                lemma_passing_shuts(t, s, b, out, event, psk, now);
            },
            Phase::Start => {
                lemma_passing_in(t, s, b, out, event, psk, now);
            },
            Phase::Receive => {
                lemma_passing_in(t, s, b, out, event, psk, now);
            },
            Phase::Inbox => {
                lemma_passing_in(t, s, b, out, event, psk, now);
            },
            Phase::Stream { stream } => {
                if stream == 0 {
                    lemma_passing_in(t, s, b, out, event, psk, now);
                } else {
                    lemma_passing_out(t, s, b, out, event, psk, now);
                }
            },
            _ => {
                lemma_passing_out(t, s, b, out, event, psk, now);
            },
        }
        let more = crate::delivery::wrote(b.turn, b.tunnel, event, s.id);
        assert(more.len() == 0 ==> out + more =~= out);
    }
}

/// The stream once the local program has finished too.
pub open spec fn finished(s: StreamModel) -> StreamModel {
    StreamModel { tcp_eof: true, ..s }
}

/// How far a turn in which the local program has finished has come.
spec fn finishing(t: TunnelModel, s: StreamModel, r: RunModel) -> bool {
    &&& r.turn.outbox.len() == 0
    &&& match r.turn.phase {
        Phase::Start => untouched(t, r),
        Phase::Receive => untouched(t, r),
        Phase::Inbox => untouched(t, r) && r.turn.inbox.len() == 0,
        Phase::Settle { stream } => untouched(t, r) && stream == 0,
        Phase::Read { stream, udp, left } => untouched(t, r) && stream == 0 && !udp && left > 0,
        Phase::Reading { stream, udp, left } => untouched(t, r) && stream == 0 && !udp,
        Phase::Offering { next } => {
            &&& next == Next::Conclude(0)
            &&& r.turn.held == end_frame(s)
            &&& r.log.len() == 0
            &&& told(s, r)
            &&& r.tunnel == with_only(t, finished(s))
        },
        Phase::Outbox { next } => if next == Next::End {
            dropped(t, s, r)
        } else {
            next == Next::Conclude(0) && ended_at(t, s, r, finished(s))
        },
        Phase::Conclude { stream } => stream == 0 && ended_at(t, s, r, finished(s)),
        Phase::Stream { stream } => if stream == 0 {
            untouched(t, r)
        } else {
            stream == 1 && ended_at(
                t,
                s,
                r,
                StreamModel { dead: Some(CloseReason::Finished), ..finished(s) },
            )
        },
        Phase::End => dropped(t, s, r),
        _ => false,
    }
}

spec fn untouched(t: TunnelModel, r: RunModel) -> bool {
    r.tunnel == t && done(r).len() == 0 && r.sent.len() == 0 && r.log.len() == 0
}

/// The end was told to the peer, and nothing else was done.
pub open spec fn told(s: StreamModel, r: RunModel) -> bool {
    done(r) == seq![AskModel::Offer(end_frame(s))] && r.sent == seq![end_frame(s)]
}

spec fn ended_at(t: TunnelModel, s: StreamModel, r: RunModel, st: StreamModel) -> bool {
    &&& told(s, r)
    &&& r.log.len() == 0
    &&& r.tunnel == TunnelModel { pending: r.tunnel.pending, ..with_only(t, st) }
}

/// The stream is dropped as finished, and the end was told to the peer.
pub open spec fn dropped(t: TunnelModel, s: StreamModel, r: RunModel) -> bool {
    &&& told(s, r)
    &&& r.log == seq![
        crate::log::stream_closed_text(
            t.id,
            s.id,
            crate::stream::reason_text(CloseReason::Finished),
        ),
    ]
    &&& r.tunnel == TunnelModel { pending: r.tunnel.pending, streams: Seq::empty(), ..t }
}

/// Sweeping a tunnel whose only stream finished leaves it empty, and the peer
/// is not told.
proof fn lemma_sweep_finished(id: u64, s: StreamModel)
    requires
        s.dead == Some(CloseReason::Finished),
    ensures
        crate::lists::kept(seq![s], crate::tunnel::alive()) == Seq::<StreamModel>::empty(),
        crate::tunnel::closing_log(id, seq![s]) == seq![
            crate::log::stream_closed_text(
                id,
                s.id,
                crate::stream::reason_text(CloseReason::Finished),
            ),
        ],
        crate::tunnel::closing_frames(seq![s]) == Seq::<Seq<u8>>::empty(),
{
    reveal_with_fuel(crate::lists::kept, 2);
    reveal_with_fuel(crate::tunnel::closing_log, 2);
    reveal_with_fuel(crate::tunnel::closing_frames, 2);
    assert(seq![s].drop_last() =~= Seq::<StreamModel>::empty());
    assert(seq![s].last() == s);
    assert(crate::tunnel::closing_log(id, seq![s]) =~= seq![
        crate::log::stream_closed_text(
            id,
            s.id,
            crate::stream::reason_text(CloseReason::Finished),
        ),
    ]);
}

/// Up to the local end.
proof fn lemma_finishing_in(
    t: TunnelModel,
    s: StreamModel,
    r: RunModel,
    event: EventModel,
    psk: Seq<char>,
    now: u64,
)
    requires
        flowing(t, s),
        s == half_closed(s),
        finishing(t, s, r),
        crate::run::fits(r.turn, r.tunnel, event),
        local_ends(event),
        untouched(t, r),
        !(r.turn.phase is Reading),
        r.turn.phase is Stream ==> r.turn.phase == (Phase::Stream { stream: 0 }),
        !(r.turn.phase is End),
        !(r.turn.phase is Outbox),
    ensures
        finishing(t, s, r.stepped(event, psk, now)),
{
    lemma_done(r, event, psk, now);
    let n = r.stepped(event, psk, now);
    reveal(TurnModel::retrying);
    reveal(TurnModel::on_inbox);
    reveal(TurnModel::on_stream);
    reveal(TurnModel::flushing);
    reveal(TurnModel::on_settle);
    reveal(TurnModel::on_read);
    assert(s.settled() == s);
    assert(seq![s].update(0, s) =~= seq![s]);
    assert(n.log =~= r.log && n.sent =~= r.sent);
}

/// The local end.
proof fn lemma_finishing_reads(
    t: TunnelModel,
    s: StreamModel,
    r: RunModel,
    event: EventModel,
    psk: Seq<char>,
    now: u64,
)
    requires
        flowing(t, s),
        s == half_closed(s),
        finishing(t, s, r),
        crate::run::fits(r.turn, r.tunnel, event),
        local_ends(event),
        r.turn.phase is Reading,
    ensures
        finishing(t, s, r.stepped(event, psk, now)),
{
    lemma_done(r, event, psk, now);
    let n = r.stepped(event, psk, now);
    reveal(TurnModel::on_read_end);
    assert(s.read_ended(ReadEnd::Eof) == finished(s));
    assert(seq![s].update(0, finished(s)) =~= seq![finished(s)]);
    assert(n.tunnel == with_only(t, finished(s)));
    assert(done(n) =~= seq![AskModel::Offer(end_frame(s))]);
    assert(n.sent =~= seq![end_frame(s)]);
    assert(n.log =~= r.log);
}

/// From there to the end of the turn.
proof fn lemma_finishing_out(
    t: TunnelModel,
    s: StreamModel,
    r: RunModel,
    event: EventModel,
    psk: Seq<char>,
    now: u64,
)
    requires
        flowing(t, s),
        s == half_closed(s),
        finishing(t, s, r),
        crate::run::fits(r.turn, r.tunnel, event),
        local_ends(event),
        r.turn.phase is Offering || r.turn.phase is Outbox || r.turn.phase is Conclude
            || r.turn.phase is End || r.turn.phase == (Phase::Stream { stream: 1 }),
    ensures
        finishing(t, s, r.stepped(event, psk, now)),
{
    lemma_done(r, event, psk, now);
    let n = r.stepped(event, psk, now);
    reveal(TurnModel::on_offered);
    reveal(TurnModel::on_outbox);
    reveal(TurnModel::on_conclude);
    reveal(TurnModel::on_stream);
    let a = finished(s);
    let z = StreamModel { dead: Some(CloseReason::Finished), ..a };
    assert(a.concluded(t.udp, now) == z);
    assert(seq![a].update(0, z) =~= seq![z]);
    lemma_sweep_finished(t.id, z);
    assert(n.sent =~= r.sent);
    if r.turn.phase is Stream {
        assert(n.log =~= crate::tunnel::closing_log(t.id, seq![z]));
    } else {
        assert(n.log =~= r.log);
    }
}

proof fn lemma_finishing(
    t: TunnelModel,
    s: StreamModel,
    events: Seq<(EventModel, u64)>,
    psk: Seq<char>,
)
    requires
        flowing(t, s),
        s == half_closed(s),
        crate::run::fitting(t, events, psk),
        forall|k: int| 0 <= k < events.len() ==> local_ends((#[trigger] events[k]).0),
    ensures
        finishing(t, s, crate::run::run(t, events, psk)),
    decreases events.len(),
{
    crate::run::lemma_run_step(t, events, psk);
    if events.len() > 0 {
        let init = events.drop_last();
        let b = crate::run::run(t, init, psk);
        let (event, now) = events.last();
        assert forall|k: int| 0 <= k < init.len() implies local_ends((#[trigger] init[k]).0) by {
            assert(events[k] == init[k]);
        }
        assert(local_ends(events[events.len() - 1].0));
        lemma_finishing(t, s, init, psk);
        match b.turn.phase {
            Phase::Reading { .. } => {
                lemma_finishing_reads(t, s, b, event, psk, now);
            },
            Phase::Offering { .. } => {
                lemma_finishing_out(t, s, b, event, psk, now);
            },
            Phase::Outbox { .. } => {
                lemma_finishing_out(t, s, b, event, psk, now);
            },
            Phase::Conclude { .. } => {
                lemma_finishing_out(t, s, b, event, psk, now);
            },
            Phase::End => {
                lemma_finishing_out(t, s, b, event, psk, now);
            },
            Phase::Stream { stream } => {
                if stream == 0 {
                    lemma_finishing_in(t, s, b, event, psk, now);
                } else {
                    lemma_finishing_out(t, s, b, event, psk, now);
                }
            },
            _ => {
                lemma_finishing_in(t, s, b, event, psk, now);
            },
        }
    }
}

/// Half-close. In the turn in which the peer's end arrives, all that waits is
/// written to the local socket, and after that its write half is shut down. The
/// stream stays, and nothing is sent. In a later turn, in which the local
/// program has finished too, the end is sent, or waits where Steam refuses it,
/// and the stream is dropped as finished: without a second shutdown, and
/// without a close frame.
pub proof fn law_half_close(
    t: TunnelModel,
    s: StreamModel,
    first: Seq<(EventModel, u64)>,
    second: Seq<(EventModel, u64)>,
    psk: Seq<char>,
    between: u64,
)
    requires
        flowing(t, s),
        !s.wr_shutdown,
        crate::run::fitting(t, first, psk),
        crate::run::run(t, first, psk).turn.phase is End,
        forall|k: int| 0 <= k < first.len() ==> peer_ends(s, (#[trigger] first[k]).0),
        crate::run::fitting(
            crate::run::run(t, first, psk).tunnel.aged(between),
            second,
            psk,
        ),
        crate::run::run(
            crate::run::run(t, first, psk).tunnel.aged(between),
            second,
            psk,
        ).turn.phase is End,
        forall|k: int| 0 <= k < second.len() ==> local_ends((#[trigger] second[k]).0),
    ensures
        ({
            let r = crate::run::run(t, first, psk);
            &&& passed_on(t, s, r, crate::delivery::all_wrote(t, first, psk, s.id))
            &&& r.sent.len() == 0
            &&& r.taken.len() == 0
            &&& r.log.len() == 0
        }),
        ({
            let u = crate::run::run(t, first, psk).tunnel.aged(between);
            let r = crate::run::run(u, second, psk);
            &&& dropped(u, s, r)
            &&& r.taken + r.tunnel.pending == seq![end_frame(s)]
        }),
{
    lemma_passing(t, s, first, psk);
    let u = crate::run::run(t, first, psk).tunnel.aged(between);
    let h = half_closed(s);
    assert(u.streams == seq![h]);
    assert(flowing(u, h));
    assert(h == half_closed(h));
    lemma_finishing(u, h, second, psk);
    let r = crate::run::run(u, second, psk);
    assert(crate::order::ids(u).len() == 1);
    crate::run::law_whole_turn_keeps_order(u, second, psk);
    assert(crate::order::in_flight(r.turn, r.tunnel) =~= r.tunnel.pending);
    assert(u.pending + r.sent =~= r.sent);
}

} // verus!
