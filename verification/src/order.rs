//! What is sent reaches Steam in order, whatever happens in a turn.
use vstd::prelude::*;

use crate::protocol::{F_DATA, F_EOF, HDR};
use crate::stream::{ReadEnd, StreamModel};
use crate::tunnel::{ActionModel, TunnelModel};
use crate::turn::{AskModel, EventModel, Next, Phase, TurnModel};

verus! {

/// The ids of streams.
pub open spec fn ids_of(ss: Seq<StreamModel>) -> Seq<u32> {
    ss.map_values(|st: StreamModel| st.id)
}

/// The ids of a tunnel's streams.
pub open spec fn ids(t: TunnelModel) -> Seq<u32> {
    ids_of(t.streams)
}

/// The stream that a turn is at.
pub open spec fn stream_at(phase: Phase) -> Option<int> {
    match phase {
        Phase::Stream { stream } => Some(stream as int),
        Phase::Writing { stream } => Some(stream as int),
        Phase::Settle { stream } => Some(stream as int),
        Phase::Read { stream, udp, left } => Some(stream as int),
        Phase::Reading { stream, udp, left } => Some(stream as int),
        Phase::SendingTcp { stream, left } => Some(stream as int),
        Phase::SendingUdp { stream, left, count } => Some(stream as int),
        Phase::Conclude { stream } => Some(stream as int),
        Phase::Outbox { next: Next::Conclude(stream) } => Some(stream as int),
        Phase::Offering { next: Next::Conclude(stream) } => Some(stream as int),
        _ => None,
    }
}

/// Whether a turn is reading a local socket.
pub open spec fn reads_local(phase: Phase) -> bool {
    match phase {
        Phase::Read { stream, udp, left } => true,
        Phase::Reading { stream, udp, left } => true,
        Phase::SendingTcp { stream, left } => true,
        Phase::SendingUdp { stream, left, count } => true,
        _ => false,
    }
}

/// What a turn keeps to.
pub open spec fn orderly(turn: TurnModel, t: TunnelModel) -> bool {
    &&& ids(t).no_duplicates()
    &&& turn.outbox.len() > 0 ==> (turn.phase is Outbox || turn.phase is Offering)
    &&& turn.phase is Offering ==> t.pending.len() == 0
    &&& match turn.phase {
        Phase::Opening { sid } => !ids(t).contains(sid),
        Phase::OpeningFlow { sid } => !ids(t).contains(sid),
        _ => true,
    }
    &&& match stream_at(turn.phase) {
        Some(i) => (turn.phase is Stream || i < t.streams.len()) && turn.outbox.len() == 0,
        None => true,
    }
    &&& reads_local(turn.phase) ==> t.pending.len() == 0
    &&& turn.phase is SendingTcp ==> turn.held.len() >= HDR
}

/// The frames that were sent reliably and that Steam has not taken yet.
pub open spec fn in_flight(turn: TurnModel, t: TunnelModel) -> Seq<Seq<u8>> {
    t.pending + (if turn.phase is Offering || turn.phase is SendingTcp {
        seq![turn.held]
    } else {
        Seq::empty()
    }) + turn.outbox
}

/// What Steam took, as an event tells.
pub open spec fn taken(turn: TurnModel, t: TunnelModel, event: EventModel) -> Seq<Seq<u8>> {
    if event == EventModel::Sent(true) {
        match turn.phase {
            Phase::Retry => t.retry_takes(true),
            Phase::Offering { next } => seq![turn.held],
            Phase::SendingTcp { stream, left } => seq![turn.held],
            _ => Seq::empty(),
        }
    } else {
        Seq::empty()
    }
}

/// The frames of an action.
pub open spec fn frames_of(action: ActionModel) -> Seq<Seq<u8>> {
    match action {
        ActionModel::Frames(fs) => fs,
        _ => Seq::empty(),
    }
}

/// The frames that a step sends.
pub open spec fn produced(
    turn: TurnModel,
    t: TunnelModel,
    event: EventModel,
    psk: Seq<char>,
    now: u64,
) -> Seq<Seq<u8>> {
    match (turn.phase, event) {
        (Phase::Inbox, EventModel::Go) => if turn.inbox.len() > 0 {
            frames_of(t.on_message(turn.inbox[0], psk, now).action)
        } else {
            Seq::empty()
        },
        (Phase::Opening { sid }, EventModel::Opened(r)) => frames_of(
            t.on_opened(sid, r, now).action,
        ),
        (Phase::Stream { stream }, EventModel::Go) => if stream >= t.streams.len() {
            crate::tunnel::closing_frames(t.streams)
        } else {
            Seq::empty()
        },
        (Phase::Reading { stream, udp, left }, EventModel::Data(d)) => if !udp
            && t.streams[stream as int].open_sent {
            seq![crate::protocol::frame_bytes(F_DATA, t.streams[stream as int].id, d)]
        } else {
            Seq::empty()
        },
        (Phase::Reading { stream, udp, left }, EventModel::Ended(e)) => if !udp && e == ReadEnd::Eof
            && t.streams[stream as int].open_sent {
            seq![
                crate::protocol::frame_bytes(
                    F_EOF,
                    t.streams[stream as int].id,
                    Seq::empty(),
                ),
            ]
        } else {
            Seq::empty()
        },
        _ => Seq::empty(),
    }
}

/// Whether an event answers what the turn asked for.
pub open spec fn answers(turn: TurnModel, event: EventModel) -> bool {
    match turn.phase {
        Phase::Retry => event is Sent,
        Phase::Receive => event is Messages,
        Phase::Opening { sid } => event is Opened,
        Phase::OpeningFlow { sid } => event is Opened,
        Phase::Offering { next } => event is Sent,
        Phase::Writing { stream } => event is Wrote,
        Phase::Reading { stream, udp, left } => event is Data || event is Ended,
        Phase::SendingTcp { stream, left } => event is Sent,
        Phase::SendingUdp { stream, left, count } => event is Sent,
        _ => event is Go,
    }
}

proof fn lemma_same_ids(t: TunnelModel, i: int, st: StreamModel)
    requires
        0 <= i < t.streams.len(),
        st.id == t.streams[i].id,
    ensures
        ids(t.with_stream_at(i, st)) == ids(t),
{
    assert(ids(t.with_stream_at(i, st)) =~= ids(t));
}

/// A message changes neither the streams' ids nor what waits.
pub(crate) proof fn lemma_message(t: TunnelModel, data: Seq<u8>, psk: Seq<char>, now: u64)
    ensures
        ids(t.on_message(data, psk, now).tunnel) == ids(t),
        t.on_message(data, psk, now).tunnel.pending == t.pending,
        t.on_message(data, psk, now).action matches ActionModel::Open { sid } ==> !ids(
            t,
        ).contains(sid),
        t.on_message(data, psk, now).action matches ActionModel::OpenFlow {
            sid,
            payload,
        } ==> !ids(t).contains(sid),
{
    let o = t.on_message(data, psk, now);
    if let Some(f) = crate::protocol::frame_of(data) {
        let live = crate::tunnel::live_with_id(f.sid);
        crate::lists::lemma_first_where(t.streams, live);
        crate::lists::lemma_first_where(t.streams, crate::tunnel::with_id(f.sid));
        if !t.has_stream(f.sid) && ids(t).contains(f.sid) {
            let k = choose|k: int| 0 <= k < ids(t).len() && ids(t)[k] == f.sid;
            assert(!crate::tunnel::with_id(f.sid)(t.streams[k]));
        }
    }
    assert(ids(o.tunnel) =~= ids(t));
}

pub(crate) proof fn lemma_data(t: TunnelModel, sid: u32, payload: Seq<u8>, now: u64)
    ensures
        ids(t.on_data(sid, payload, now).tunnel) == ids(t),
        t.on_data(sid, payload, now).tunnel.pending == t.pending,
        frames_of(t.on_data(sid, payload, now).action).len() == 0,
{
    crate::lists::lemma_first_where(t.streams, crate::tunnel::live_with_id(sid));
    assert(ids(t.on_data(sid, payload, now).tunnel) =~= ids(t));
}

proof fn lemma_added(t: TunnelModel, st: StreamModel)
    requires
        ids(t).no_duplicates(),
        !ids(t).contains(st.id),
    ensures
        ids(t.with_stream(st)).no_duplicates(),
{
    let a = ids(t);
    let b = ids(t.with_stream(st));
    assert(b =~= a.push(st.id));
    assert forall|i: int, j: int| 0 <= i < b.len() && 0 <= j < b.len() && i != j implies b[i]
        != b[j] by {
        if i == a.len() {
            assert(a.contains(a[j]));
        } else if j == a.len() {
            assert(a.contains(a[i]));
        }
    }
}

proof fn lemma_swept_ids(ss: Seq<StreamModel>, p: spec_fn(StreamModel) -> bool)
    requires
        ids_of(ss).no_duplicates(),
    ensures
        ids_of(crate::lists::kept(ss, p)).no_duplicates(),
        forall|x: u32| #[trigger]
            ids_of(crate::lists::kept(ss, p)).contains(x) ==> ids_of(ss).contains(x),
    decreases ss.len(),
{
    let all = ids_of(ss);
    if ss.len() > 0 {
        let init = ss.drop_last();
        let a = ids_of(init);
        assert(a =~= all.drop_last());
        assert(a.no_duplicates()) by {
            assert forall|i: int, j: int| 0 <= i < a.len() && 0 <= j < a.len() && i
                != j implies a[i] != a[j] by {
                assert(all[i] == a[i] && all[j] == a[j]);
            }
        }
        lemma_swept_ids(init, p);
        let k = ids_of(crate::lists::kept(init, p));
        let r = ids_of(crate::lists::kept(ss, p));
        let last = ss.last().id;
        assert(!a.contains(last)) by {
            if a.contains(last) {
                let i = choose|i: int| 0 <= i < a.len() && a[i] == last;
                assert(all[i] == last && all[ss.len() - 1] == last);
            }
        }
        if p(ss.last()) {
            assert(r =~= k.push(last));
            assert forall|i: int, j: int| 0 <= i < r.len() && 0 <= j < r.len() && i
                != j implies r[i] != r[j] by {
                if i == k.len() {
                    assert(k.contains(k[j]));
                    assert(a.contains(k[j]));
                } else if j == k.len() {
                    assert(k.contains(k[i]));
                    assert(a.contains(k[i]));
                }
            }
        } else {
            assert(r =~= k);
        }
        assert forall|x: u32| #[trigger] r.contains(x) implies all.contains(x) by {
            let i = choose|i: int| 0 <= i < r.len() && r[i] == x;
            if i < k.len() {
                assert(k[i] == x);
                assert(k.contains(x));
                let j = choose|j: int| 0 <= j < a.len() && a[j] == x;
                assert(all[j] == x);
            } else {
                assert(all[ss.len() - 1] == x);
            }
        }
    } else {
        assert(ids_of(crate::lists::kept(ss, p)) =~= Seq::empty());
    }
}

/// Nothing is lost and nothing changes places: what Steam takes in this step,
/// and what is in flight after it, is what was in flight before it and what the
/// step sends.
pub open spec fn keeps_list(
    turn: TurnModel,
    t: TunnelModel,
    event: EventModel,
    psk: Seq<char>,
    now: u64,
) -> bool {
    let s = turn.step(t, event, psk, now);
    taken(turn, t, event) + in_flight(s.turn, s.tunnel) == in_flight(turn, t) + produced(
        turn,
        t,
        event,
        psk,
        now,
    )
}

/// An action of a message or of an attempt to connect leaves the turn orderly
/// and sends its frames.
proof fn lemma_acting(turn: TurnModel, t: TunnelModel, lines: Seq<Seq<char>>, action: ActionModel)
    requires
        ids(t).no_duplicates(),
        turn.outbox.len() == 0,
        action matches ActionModel::Open { sid } ==> !ids(t).contains(sid),
        action matches ActionModel::OpenFlow { sid, payload } ==> !ids(t).contains(sid),
    ensures
        ({
            let s = turn.acting(t, lines, action);
            &&& orderly(s.turn, s.tunnel)
            &&& in_flight(s.turn, s.tunnel) == t.pending + frames_of(action)
        }),
{
    reveal(TurnModel::acting);
    let s = turn.acting(t, lines, action);
    assert(in_flight(s.turn, s.tunnel) =~= t.pending + frames_of(action));
}

/// A step leaves the turn orderly, and loses and moves nothing.
pub open spec fn moves_on(
    turn: TurnModel,
    t: TunnelModel,
    event: EventModel,
    psk: Seq<char>,
    now: u64,
) -> bool {
    let s = turn.step(t, event, psk, now);
    orderly(s.turn, s.tunnel) && keeps_list(turn, t, event, psk, now)
}

pub(crate) proof fn lemma_start(
    turn: TurnModel,
    t: TunnelModel,
    event: EventModel,
    psk: Seq<char>,
    now: u64,
)
    requires
        orderly(turn, t),
        answers(turn, event),
        t.streams.len() <= usize::MAX,
        turn.phase is Start || turn.phase is Receive || turn.phase is End,
    ensures
        moves_on(turn, t, event, psk, now),
{
    reveal(TurnModel::retrying);
    let s = turn.step(t, event, psk, now);
    let none = Seq::<Seq<u8>>::empty();
    assert(none + in_flight(s.turn, s.tunnel) =~= in_flight(turn, t) + none);
}

proof fn lemma_retry(
    turn: TurnModel,
    t: TunnelModel,
    event: EventModel,
    psk: Seq<char>,
    now: u64,
)
    requires
        orderly(turn, t),
        answers(turn, event),
        t.streams.len() <= usize::MAX,
        turn.phase is Retry,
    ensures
        moves_on(turn, t, event, psk, now),
{
    reveal(TurnModel::retrying);
    let s = turn.step(t, event, psk, now);
    let none = Seq::<Seq<u8>>::empty();
    let ok = event->Sent_0;
    let u = t.after_retry(ok);
    assert(s == turn.retrying(u, ok));
    assert(ids(u) == ids(t));
    assert(in_flight(s.turn, s.tunnel) =~= u.pending);
    assert(t.retry_takes(ok) + u.pending =~= t.pending);
    assert(taken(turn, t, event) =~= t.retry_takes(ok));
    assert(taken(turn, t, event) + in_flight(s.turn, s.tunnel) =~= in_flight(turn, t) + none);
}

proof fn lemma_inbox(
    turn: TurnModel,
    t: TunnelModel,
    event: EventModel,
    psk: Seq<char>,
    now: u64,
)
    requires
        orderly(turn, t),
        answers(turn, event),
        t.streams.len() <= usize::MAX,
        turn.phase is Inbox,
    ensures
        moves_on(turn, t, event, psk, now),
{
    reveal(TurnModel::on_inbox);
    let s = turn.step(t, event, psk, now);
    let none = Seq::<Seq<u8>>::empty();
    assert(s == turn.on_inbox(t, psk, now));
    if turn.inbox.len() == 0 {
        assert(none + in_flight(s.turn, s.tunnel) =~= in_flight(turn, t) + none);
    } else {
        let m = turn.inbox[0];
        let o = t.on_message(m, psk, now);
        lemma_message(t, m, psk, now);
        let rest = TurnModel { inbox: turn.inbox.skip(1), ..turn };
        lemma_acting(rest, o.tunnel, o.log, o.action);
        assert(in_flight(turn, t) =~= t.pending);
        assert(none + in_flight(s.turn, s.tunnel) =~= in_flight(turn, t) + frames_of(o.action));
    }
}

proof fn lemma_opening(
    turn: TurnModel,
    t: TunnelModel,
    event: EventModel,
    psk: Seq<char>,
    now: u64,
)
    requires
        orderly(turn, t),
        answers(turn, event),
        t.streams.len() <= usize::MAX,
        turn.phase is Opening,
    ensures
        moves_on(turn, t, event, psk, now),
{
    let s = turn.step(t, event, psk, now);
    let none = Seq::<Seq<u8>>::empty();
    if let Phase::Opening { sid } = turn.phase {
        let r = event->Opened_0;
        let o = t.on_opened(sid, r, now);
        assert(s == turn.on_connected(o));
        if r is Ok {
            lemma_added(t, t.host_stream(sid, now));
        }
        lemma_acting(turn, o.tunnel, o.log, o.action);
        assert(in_flight(turn, t) =~= t.pending);
        assert(none + in_flight(s.turn, s.tunnel) =~= in_flight(turn, t) + frames_of(o.action));
    }
}

proof fn lemma_opening_flow(
    turn: TurnModel,
    t: TunnelModel,
    event: EventModel,
    psk: Seq<char>,
    now: u64,
)
    requires
        orderly(turn, t),
        answers(turn, event),
        t.streams.len() <= usize::MAX,
        turn.phase is OpeningFlow,
    ensures
        moves_on(turn, t, event, psk, now),
{
    let s = turn.step(t, event, psk, now);
    let none = Seq::<Seq<u8>>::empty();
    if let Phase::OpeningFlow { sid } = turn.phase {
        let ok = event->Opened_0 is Ok;
        let base = if ok {
            t.with_stream(t.host_stream(sid, now))
        } else {
            t
        };
        if ok {
            lemma_added(t, t.host_stream(sid, now));
        }
        lemma_data(base, sid, turn.held, now);
        let o = base.on_data(sid, turn.held, now);
        assert(s == turn.holding(Seq::empty()).on_connected(o));
        lemma_acting(turn.holding(Seq::empty()), o.tunnel, o.log, o.action);
        assert(in_flight(turn, t) =~= t.pending);
        assert(none + in_flight(s.turn, s.tunnel) =~= in_flight(turn, t) + none);
    }
}

pub(crate) proof fn lemma_outbox(
    turn: TurnModel,
    t: TunnelModel,
    event: EventModel,
    psk: Seq<char>,
    now: u64,
)
    requires
        orderly(turn, t),
        answers(turn, event),
        t.streams.len() <= usize::MAX,
        turn.phase is Outbox,
    ensures
        moves_on(turn, t, event, psk, now),
{
    reveal(TurnModel::on_outbox);
    let s = turn.step(t, event, psk, now);
    let none = Seq::<Seq<u8>>::empty();
    assert(s == turn.on_outbox(t, turn.phase->Outbox_next));
    assert(none + in_flight(s.turn, s.tunnel) =~= in_flight(turn, t) + none);
}

pub(crate) proof fn lemma_offering(
    turn: TurnModel,
    t: TunnelModel,
    event: EventModel,
    psk: Seq<char>,
    now: u64,
)
    requires
        orderly(turn, t),
        answers(turn, event),
        t.streams.len() <= usize::MAX,
        turn.phase is Offering,
    ensures
        moves_on(turn, t, event, psk, now),
{
    reveal(TurnModel::on_offered);
    let s = turn.step(t, event, psk, now);
    let none = Seq::<Seq<u8>>::empty();
    if let Phase::Offering { next } = turn.phase {
        let ok = event->Sent_0;
        assert(s == turn.on_offered(t, next, ok));
        if ok {
            assert(taken(turn, t, event) =~= seq![turn.held]);
        } else {
            assert(taken(turn, t, event) =~= none);
        }
        assert(taken(turn, t, event) + in_flight(s.turn, s.tunnel) =~= in_flight(turn, t) + none);
    }
}

pub(crate) proof fn lemma_stream(
    turn: TurnModel,
    t: TunnelModel,
    event: EventModel,
    psk: Seq<char>,
    now: u64,
)
    requires
        orderly(turn, t),
        answers(turn, event),
        t.streams.len() <= usize::MAX,
        turn.phase is Stream,
    ensures
        moves_on(turn, t, event, psk, now),
{
    reveal(TurnModel::on_stream);
    reveal(TurnModel::flushing);
    let s = turn.step(t, event, psk, now);
    let none = Seq::<Seq<u8>>::empty();
    if let Phase::Stream { stream } = turn.phase {
        assert(s == turn.on_stream(t, stream));
        if stream >= t.streams.len() {
            lemma_swept_ids(t.streams, crate::tunnel::alive());
            assert(none + in_flight(s.turn, s.tunnel) =~= in_flight(turn, t)
                + crate::tunnel::closing_frames(t.streams));
        } else {
            assert(none + in_flight(s.turn, s.tunnel) =~= in_flight(turn, t) + none);
        }
    }
}

proof fn lemma_writing(
    turn: TurnModel,
    t: TunnelModel,
    event: EventModel,
    psk: Seq<char>,
    now: u64,
)
    requires
        orderly(turn, t),
        answers(turn, event),
        t.streams.len() <= usize::MAX,
        turn.phase is Writing,
    ensures
        moves_on(turn, t, event, psk, now),
{
    reveal(TurnModel::on_wrote);
    reveal(TurnModel::flushing);
    let s = turn.step(t, event, psk, now);
    let none = Seq::<Seq<u8>>::empty();
    if let Phase::Writing { stream } = turn.phase {
        let st = t.streams[stream as int];
        assert(s == turn.on_wrote(t, stream, event->Wrote_0));
        lemma_same_ids(t, stream as int, st.written(event->Wrote_0));
        assert(none + in_flight(s.turn, s.tunnel) =~= in_flight(turn, t) + none);
    }
}

proof fn lemma_settle(
    turn: TurnModel,
    t: TunnelModel,
    event: EventModel,
    psk: Seq<char>,
    now: u64,
)
    requires
        orderly(turn, t),
        answers(turn, event),
        t.streams.len() <= usize::MAX,
        turn.phase is Settle,
    ensures
        moves_on(turn, t, event, psk, now),
{
    reveal(TurnModel::on_settle);
    let s = turn.step(t, event, psk, now);
    let none = Seq::<Seq<u8>>::empty();
    if let Phase::Settle { stream } = turn.phase {
        let st = t.streams[stream as int];
        assert(s == turn.on_settle(t, stream));
        lemma_same_ids(t, stream as int, st.settled());
        assert(none + in_flight(s.turn, s.tunnel) =~= in_flight(turn, t) + none);
    }
}

proof fn lemma_read(
    turn: TurnModel,
    t: TunnelModel,
    event: EventModel,
    psk: Seq<char>,
    now: u64,
)
    requires
        orderly(turn, t),
        answers(turn, event),
        t.streams.len() <= usize::MAX,
        turn.phase is Read,
    ensures
        moves_on(turn, t, event, psk, now),
{
    reveal(TurnModel::on_read);
    let s = turn.step(t, event, psk, now);
    let none = Seq::<Seq<u8>>::empty();
    if let Phase::Read { stream, udp, left } = turn.phase {
        assert(s == turn.on_read(t, stream, udp, left));
        assert(none + in_flight(s.turn, s.tunnel) =~= in_flight(turn, t) + none);
    }
}

proof fn lemma_conclude(
    turn: TurnModel,
    t: TunnelModel,
    event: EventModel,
    psk: Seq<char>,
    now: u64,
)
    requires
        orderly(turn, t),
        answers(turn, event),
        t.streams.len() <= usize::MAX,
        turn.phase is Conclude,
    ensures
        moves_on(turn, t, event, psk, now),
{
    reveal(TurnModel::on_conclude);
    let s = turn.step(t, event, psk, now);
    let none = Seq::<Seq<u8>>::empty();
    if let Phase::Conclude { stream } = turn.phase {
        let st = t.streams[stream as int];
        assert(s == turn.on_conclude(t, stream, now));
        lemma_same_ids(t, stream as int, st.concluded(t.udp, now));
        assert(none + in_flight(s.turn, s.tunnel) =~= in_flight(turn, t) + none);
    }
}

proof fn lemma_sending_udp(
    turn: TurnModel,
    t: TunnelModel,
    event: EventModel,
    psk: Seq<char>,
    now: u64,
)
    requires
        orderly(turn, t),
        answers(turn, event),
        t.streams.len() <= usize::MAX,
        turn.phase is SendingUdp,
    ensures
        moves_on(turn, t, event, psk, now),
{
    reveal(TurnModel::on_udp_sent);
    let s = turn.step(t, event, psk, now);
    let none = Seq::<Seq<u8>>::empty();
    if let Phase::SendingUdp { stream, left, count } = turn.phase {
        let st = t.streams[stream as int];
        let sent = StreamModel { tx_bytes: st.tx_bytes.wrapping_add(count), ..st };
        assert(s == turn.on_udp_sent(t, stream, left, count, event->Sent_0));
        lemma_same_ids(t, stream as int, sent);
        assert(none + in_flight(s.turn, s.tunnel) =~= in_flight(turn, t) + none);
    }
}

proof fn lemma_reading(
    turn: TurnModel,
    t: TunnelModel,
    event: EventModel,
    psk: Seq<char>,
    now: u64,
)
    requires
        orderly(turn, t),
        answers(turn, event),
        turn.phase is Reading,
    ensures
        moves_on(turn, t, event, psk, now),
{
    reveal(TurnModel::on_tcp_data);
    reveal(TurnModel::on_udp_data);
    reveal(TurnModel::on_read_end);
    let s = turn.step(t, event, psk, now);
    let none = Seq::<Seq<u8>>::empty();
    if let Phase::Reading { stream, udp, left } = turn.phase {
        let i = stream as int;
        let st = t.streams[i];
        assert(in_flight(turn, t) =~= t.pending);
        match event {
            EventModel::Data(d) => {
                if udp {
                    lemma_same_ids(t, i, StreamModel { last_activity: now, ..st });
                    assert(none + in_flight(s.turn, s.tunnel) =~= in_flight(turn, t) + none);
                } else {
                    lemma_same_ids(t, i, st.held_back(d));
                    crate::protocol::law_frame_round_trip(F_DATA, st.id, d);
                    if st.open_sent {
                        let f = crate::protocol::frame_bytes(F_DATA, st.id, d);
                        assert(none + in_flight(s.turn, s.tunnel) =~= in_flight(turn, t) + seq![f]);
                    } else {
                        assert(none + in_flight(s.turn, s.tunnel) =~= in_flight(turn, t) + none);
                    }
                }
            },
            EventModel::Ended(e) => {
                lemma_same_ids(t, i, st.read_ended(e));
                let f = crate::protocol::frame_bytes(F_EOF, st.id, Seq::empty());
                crate::protocol::law_frame_round_trip(F_EOF, st.id, Seq::empty());
                if !udp && e == ReadEnd::Eof && st.open_sent {
                    assert(none + in_flight(s.turn, s.tunnel) =~= in_flight(turn, t) + seq![f]);
                } else {
                    assert(none + in_flight(s.turn, s.tunnel) =~= in_flight(turn, t) + none);
                }
            },
            _ => {},
        }
    }
}

proof fn lemma_sending(
    turn: TurnModel,
    t: TunnelModel,
    event: EventModel,
    psk: Seq<char>,
    now: u64,
)
    requires
        orderly(turn, t),
        answers(turn, event),
        turn.phase is SendingTcp,
    ensures
        moves_on(turn, t, event, psk, now),
{
    reveal(TurnModel::on_tcp_sent);
    let s = turn.step(t, event, psk, now);
    let none = Seq::<Seq<u8>>::empty();
    if let Phase::SendingTcp { stream, left } = turn.phase {
        let i = stream as int;
        let st = t.streams[i];
        let n = (turn.held.len() - HDR) as u64;
        assert(s == turn.on_tcp_sent(t, stream, left, event->Sent_0));
        lemma_same_ids(t, i, StreamModel { tx_bytes: st.tx_bytes.wrapping_add(n), ..st });
        assert(taken(turn, t, event) + in_flight(s.turn, s.tunnel) =~= in_flight(turn, t) + none);
    }
}

/// What is sent reaches Steam in the order in which it was sent, none of it
/// lost, whatever messages, refusals, reads and writes a turn meets. Every step
/// of a turn keeps to it, and leaves the turn in a state from which the next
/// step does.
pub proof fn law_turn_keeps_order(
    turn: TurnModel,
    t: TunnelModel,
    event: EventModel,
    psk: Seq<char>,
    now: u64,
)
    requires
        orderly(turn, t),
        answers(turn, event),
        t.streams.len() <= usize::MAX,
    ensures
        orderly(turn.step(t, event, psk, now).turn, turn.step(t, event, psk, now).tunnel),
        keeps_list(turn, t, event, psk, now),
{
    match turn.phase {
        Phase::Retry => lemma_retry(turn, t, event, psk, now),
        Phase::Inbox => lemma_inbox(turn, t, event, psk, now),
        Phase::Opening { sid } => lemma_opening(turn, t, event, psk, now),
        Phase::OpeningFlow { sid } => lemma_opening_flow(turn, t, event, psk, now),
        Phase::Outbox { next } => lemma_outbox(turn, t, event, psk, now),
        Phase::Offering { next } => lemma_offering(turn, t, event, psk, now),
        Phase::Stream { stream } => lemma_stream(turn, t, event, psk, now),
        Phase::Writing { stream } => lemma_writing(turn, t, event, psk, now),
        Phase::Settle { stream } => lemma_settle(turn, t, event, psk, now),
        Phase::Read { stream, udp, left } => lemma_read(turn, t, event, psk, now),
        Phase::Reading { stream, udp, left } => lemma_reading(turn, t, event, psk, now),
        Phase::SendingTcp { stream, left } => lemma_sending(turn, t, event, psk, now),
        Phase::SendingUdp { stream, left, count } => lemma_sending_udp(turn, t, event, psk, now),
        Phase::Conclude { stream } => lemma_conclude(turn, t, event, psk, now),
        _ => lemma_start(turn, t, event, psk, now),
    }
}

/// A turn starts out orderly on any tunnel whose streams have different ids.
pub proof fn law_turn_starts_orderly(t: TunnelModel)
    requires
        ids(t).no_duplicates(),
    ensures
        orderly(TurnModel::fresh(), t),
        in_flight(TurnModel::fresh(), t) == t.pending,
{
    assert(in_flight(TurnModel::fresh(), t) =~= t.pending);
}

/// Backpressure: no local socket, TCP or UDP, is read while a frame waits.
pub proof fn law_backpressure(
    turn: TurnModel,
    t: TunnelModel,
    event: EventModel,
    psk: Seq<char>,
    now: u64,
)
    requires
        orderly(turn, t),
    ensures
        ({
            let s = turn.step(t, event, psk, now);
            (s.ask is ReadTcp || s.ask is ReadUdp) ==> t.pending.len() == 0
                && s.tunnel.pending.len() == 0
        }),
{
    match turn.phase {
        Phase::Start => {
            reveal(TurnModel::retrying);
        },
        Phase::Retry => {
            reveal(TurnModel::retrying);
        },
        Phase::Inbox => {
            reveal(TurnModel::on_inbox);
            reveal(TurnModel::acting);
        },
        Phase::Opening { .. } => {
            reveal(TurnModel::acting);
        },
        Phase::OpeningFlow { .. } => {
            reveal(TurnModel::acting);
        },
        Phase::Outbox { .. } => {
            reveal(TurnModel::on_outbox);
        },
        Phase::Offering { .. } => {
            reveal(TurnModel::on_offered);
        },
        Phase::Stream { .. } => {
            reveal(TurnModel::on_stream);
            reveal(TurnModel::flushing);
        },
        Phase::Writing { .. } => {
            reveal(TurnModel::on_wrote);
            reveal(TurnModel::flushing);
        },
        Phase::Settle { .. } => {
            reveal(TurnModel::on_settle);
        },
        Phase::Read { .. } => {
            reveal(TurnModel::on_read);
        },
        Phase::Reading { .. } => {
            reveal(TurnModel::on_tcp_data);
            reveal(TurnModel::on_udp_data);
            reveal(TurnModel::on_read_end);
        },
        Phase::SendingTcp { .. } => {
            reveal(TurnModel::on_tcp_sent);
        },
        Phase::SendingUdp { .. } => {
            reveal(TurnModel::on_udp_sent);
        },
        Phase::Conclude { .. } => {
            reveal(TurnModel::on_conclude);
        },
        _ => {},
    }
}

proof fn lemma_arrivals_continue(turn: TurnModel, t: TunnelModel, psk: Seq<char>, now: u64)
    ensures
        crate::laws::continues(t, turn.on_inbox(t, psk, now).tunnel),
{
    reveal(TurnModel::on_inbox);
    reveal(TurnModel::acting);
    crate::laws::law_tunnel_continues(
        t,
        turn.inbox[0],
        psk,
        0,
        Ok(()),
        crate::tunnel::Health::Fine,
        now,
    );
}

proof fn lemma_connecting_continues(
    turn: TurnModel,
    t: TunnelModel,
    sid: u32,
    r: Result<(), Seq<char>>,
    now: u64,
)
    ensures
        crate::laws::continues(t, turn.on_connected(t.on_opened(sid, r, now)).tunnel),
        crate::laws::continues(
            t,
            turn.holding(Seq::empty()).on_connected(
                t.on_flow_opened(sid, r is Ok, turn.held, now),
            ).tunnel,
        ),
{
    reveal(TurnModel::acting);
}

proof fn lemma_sending_continues(turn: TurnModel, t: TunnelModel, next: Next, ok: bool)
    ensures
        crate::laws::continues(t, turn.retrying(t, true).tunnel),
        crate::laws::continues(t, turn.retrying(t.after_retry(ok), ok).tunnel),
        crate::laws::continues(t, turn.on_outbox(t, next).tunnel),
        crate::laws::continues(t, turn.on_offered(t, next, ok).tunnel),
{
    reveal(TurnModel::retrying);
    reveal(TurnModel::on_outbox);
    reveal(TurnModel::on_offered);
}

proof fn lemma_streams_continue(
    turn: TurnModel,
    t: TunnelModel,
    i: usize,
    w: crate::stream::WriteOutcome,
    now: u64,
)
    ensures
        crate::laws::continues(t, turn.on_stream(t, i).tunnel),
        crate::laws::continues(t, turn.on_wrote(t, i, w).tunnel),
        crate::laws::continues(t, turn.on_settle(t, i).tunnel),
        crate::laws::continues(t, turn.on_conclude(t, i, now).tunnel),
{
    reveal(TurnModel::on_stream);
    reveal(TurnModel::flushing);
    reveal(TurnModel::on_wrote);
    reveal(TurnModel::on_settle);
    reveal(TurnModel::on_conclude);
}

proof fn lemma_reads_continue(
    turn: TurnModel,
    t: TunnelModel,
    i: usize,
    udp: bool,
    left: usize,
    d: Seq<u8>,
    e: ReadEnd,
    now: u64,
)
    ensures
        crate::laws::continues(t, turn.on_read(t, i, udp, left).tunnel),
        crate::laws::continues(t, turn.on_tcp_data(t, i, left, d).tunnel),
        crate::laws::continues(t, turn.on_udp_data(t, i, left, d, now).tunnel),
        crate::laws::continues(t, turn.on_read_end(t, i, udp, e).tunnel),
{
    reveal(TurnModel::on_read);
    reveal(TurnModel::on_tcp_data);
    reveal(TurnModel::on_udp_data);
    reveal(TurnModel::on_read_end);
}

proof fn lemma_sent_continues(
    turn: TurnModel,
    t: TunnelModel,
    i: usize,
    left: usize,
    count: u64,
    ok: bool,
)
    ensures
        crate::laws::continues(t, turn.on_tcp_sent(t, i, left, ok).tunnel),
        crate::laws::continues(t, turn.on_udp_sent(t, i, left, count, ok).tunnel),
{
    reveal(TurnModel::on_tcp_sent);
    reveal(TurnModel::on_udp_sent);
}

/// Through every step of a turn a tunnel stays the same tunnel.
pub proof fn law_turn_continues(
    turn: TurnModel,
    t: TunnelModel,
    event: EventModel,
    psk: Seq<char>,
    now: u64,
)
    ensures
        crate::laws::continues(t, turn.step(t, event, psk, now).tunnel),
{
    match turn.phase {
        Phase::Start => lemma_sending_continues(turn, t, Next::Inbox, true),
        Phase::Retry => lemma_sending_continues(turn, t, Next::Inbox, event->Sent_0),
        Phase::Inbox => lemma_arrivals_continue(turn, t, psk, now),
        Phase::Opening { sid } => lemma_connecting_continues(turn, t, sid, event->Opened_0, now),
        Phase::OpeningFlow { sid } => lemma_connecting_continues(
            turn,
            t,
            sid,
            event->Opened_0,
            now,
        ),
        Phase::Outbox { next } => lemma_sending_continues(turn, t, next, true),
        Phase::Offering { next } => lemma_sending_continues(turn, t, next, event->Sent_0),
        Phase::Stream { stream } => lemma_streams_continue(turn, t, stream, event->Wrote_0, now),
        Phase::Writing { stream } => lemma_streams_continue(turn, t, stream, event->Wrote_0, now),
        Phase::Settle { stream } => lemma_streams_continue(turn, t, stream, event->Wrote_0, now),
        Phase::Conclude { stream } => lemma_streams_continue(turn, t, stream, event->Wrote_0, now),
        Phase::Read { stream, udp, left } => lemma_reads_continue(
            turn,
            t,
            stream,
            udp,
            left,
            event->Data_0,
            event->Ended_0,
            now,
        ),
        Phase::Reading { stream, udp, left } => lemma_reads_continue(
            turn,
            t,
            stream,
            udp,
            left,
            event->Data_0,
            event->Ended_0,
            now,
        ),
        Phase::SendingTcp { stream, left } => lemma_sent_continues(
            turn,
            t,
            stream,
            left,
            0,
            event->Sent_0,
        ),
        Phase::SendingUdp { stream, left, count } => lemma_sent_continues(
            turn,
            t,
            stream,
            left,
            count,
            event->Sent_0,
        ),
        _ => {},
    }
}

} // verus!
