//! What arrives for a TCP stream is written to its local socket, in order and
//! in full, whatever else happens in a turn.
use vstd::prelude::*;

use crate::protocol::F_DATA;
use crate::stream::{LocalSock, StreamModel, WriteOutcome};
use crate::tunnel::{ConnState, TunnelModel};
use crate::turn::{EventModel, Phase, TurnModel};

verus! {

/// The bytes that the local socket of the stream `sid` took, as an event tells.
pub open spec fn wrote(turn: TurnModel, t: TunnelModel, event: EventModel, sid: u32) -> Seq<u8> {
    match (turn.phase, event) {
        (Phase::Writing { stream }, EventModel::Wrote(WriteOutcome::Wrote(n))) => if stream
            < t.streams.len() && t.streams[stream as int].id == sid {
            t.streams[stream as int].tcp_out.take(n as int)
        } else {
            Seq::empty()
        },
        _ => Seq::empty(),
    }
}

/// The payload of the data frame for the stream `sid` that a step takes, if it
/// takes one.
pub open spec fn arrived(turn: TurnModel, t: TunnelModel, event: EventModel, sid: u32) -> Seq<u8> {
    if turn.phase is Inbox && event is Go && turn.inbox.len() > 0 && t.state == ConnState::Active {
        match crate::protocol::frame_of(turn.inbox[0]) {
            Some(f) => if f.ftype == F_DATA && f.sid == sid {
                f.payload
            } else {
                Seq::empty()
            },
            None => Seq::empty(),
        }
    } else {
        Seq::empty()
    }
}

/// What the local socket of the stream `sid` took in a turn.
pub open spec fn all_wrote(
    t: TunnelModel,
    events: Seq<(EventModel, u64)>,
    psk: Seq<char>,
    sid: u32,
) -> Seq<u8>
    decreases events.len(),
{
    if events.len() == 0 {
        Seq::empty()
    } else {
        let init = events.drop_last();
        let r = crate::run::run(t, init, psk);
        all_wrote(t, init, psk, sid) + wrote(r.turn, r.tunnel, events.last().0, sid)
    }
}

/// The payloads of the data frames for the stream `sid` that a turn took.
pub open spec fn all_arrived(
    t: TunnelModel,
    events: Seq<(EventModel, u64)>,
    psk: Seq<char>,
    sid: u32,
) -> Seq<u8>
    decreases events.len(),
{
    if events.len() == 0 {
        Seq::empty()
    } else {
        let init = events.drop_last();
        let r = crate::run::run(t, init, psk);
        all_arrived(t, init, psk, sid) + arrived(r.turn, r.tunnel, events.last().0, sid)
    }
}

/// Whether `b` is the TCP stream `a` after `out` was written to its socket and
/// `input` arrived for it.
pub open spec fn delivers(a: StreamModel, b: StreamModel, out: Seq<u8>, input: Seq<u8>) -> bool {
    &&& a.dead is None
    &&& b.id == a.id
    &&& b.local == a.local
    &&& out + b.tcp_out == a.tcp_out + input
    &&& b.rx_bytes == (a.rx_bytes + input.len()) % 0x1_0000_0000_0000_0000
}

/// A message for a tunnel, seen from one of its TCP streams.
proof fn lemma_message_delivers(
    t: TunnelModel,
    data: Seq<u8>,
    psk: Seq<char>,
    now: u64,
    i: int,
    input: Seq<u8>,
)
    requires
        crate::order::ids(t).no_duplicates(),
        0 <= i < t.streams.len(),
        t.on_message(data, psk, now).tunnel.streams[i].local == Some(LocalSock::Tcp),
        t.on_message(data, psk, now).tunnel.streams[i].dead is None,
        input == arrived(
            TurnModel { phase: Phase::Inbox, inbox: seq![data], ..TurnModel::fresh() },
            t,
            EventModel::Go,
            t.streams[i].id,
        ),
    ensures
        delivers(
            t.streams[i],
            t.on_message(data, psk, now).tunnel.streams[i],
            Seq::empty(),
            input,
        ),
{
    let st = t.streams[i];
    let out = Seq::<u8>::empty();
    let after = t.on_message(data, psk, now).tunnel.streams[i];
    crate::order::lemma_message(t, data, psk, now);
    if t.state == ConnState::Active {
        if let Some(f) = crate::protocol::frame_of(data) {
            let live = crate::tunnel::live_with_id(f.sid);
            crate::lists::lemma_first_where(t.streams, live);
            crate::lists::lemma_first_where(t.streams, crate::tunnel::with_id(f.sid));
            let ids = crate::order::ids(t);
            if let Some(k) = crate::lists::first_where(t.streams, live) {
                if k != i {
                    assert(ids[k] != ids[i]);
                }
            } else {
                assert(!live(t.streams[i]));
            }
            if let Some(k) = crate::lists::first_where(
                t.streams,
                crate::tunnel::with_id(f.sid),
            ) {
            } else {
                assert(!crate::tunnel::with_id(f.sid)(t.streams[i]));
            }
        }
    }
    assert(out + after.tcp_out =~= after.tcp_out);
    assert(st.tcp_out + input =~= after.tcp_out);
}

/// A step that takes what arrived, seen from a TCP stream.
proof fn lemma_arrivals_deliver(
    turn: TurnModel,
    t: TunnelModel,
    event: EventModel,
    psk: Seq<char>,
    now: u64,
    i: int,
)
    requires
        crate::order::orderly(turn, t),
        crate::run::fits(turn, t, event),
        crate::order::stream_at(turn.phase) is None,
        0 <= i < t.streams.len(),
        turn.step(t, event, psk, now).tunnel.streams[i].local == Some(LocalSock::Tcp),
        turn.step(t, event, psk, now).tunnel.streams[i].dead is None,
    ensures
        delivers(
            t.streams[i],
            turn.step(t, event, psk, now).tunnel.streams[i],
            wrote(turn, t, event, t.streams[i].id),
            arrived(turn, t, event, t.streams[i].id),
        ),
        i < turn.step(t, event, psk, now).tunnel.streams.len(),
{
    let s = turn.step(t, event, psk, now);
    let st = t.streams[i];
    let out = wrote(turn, t, event, st.id);
    let input = arrived(turn, t, event, st.id);
    assert(out =~= Seq::empty());
    match turn.phase {
        Phase::Inbox => {
            reveal(TurnModel::on_inbox);
            reveal(TurnModel::acting);
            if turn.inbox.len() > 0 {
                let data = turn.inbox[0];
                let lone = TurnModel {
                    phase: Phase::Inbox,
                    inbox: seq![data],
                    ..TurnModel::fresh()
                };
                assert(lone.inbox[0] == data);
                assert(arrived(lone, t, EventModel::Go, st.id) == input);
                crate::order::lemma_message(t, data, psk, now);
                lemma_message_delivers(t, data, psk, now, i, input);
                assert(crate::order::ids(s.tunnel).len() == crate::order::ids(t).len());
            }
        },
        Phase::OpeningFlow { sid } => {
            reveal(TurnModel::acting);
            let u = t.with_stream(t.host_stream(sid, now));
            let live = crate::tunnel::live_with_id(sid);
            crate::lists::lemma_first_where(u.streams, live);
            crate::lists::lemma_first_where(t.streams, live);
            assert(crate::order::ids(t)[i] != sid) by {
                assert(crate::order::ids(t).contains(crate::order::ids(t)[i]));
            }
            assert(s.tunnel.streams[i] == st);
        },
        Phase::Opening { sid } => {
            reveal(TurnModel::acting);
            assert(s.tunnel.streams[i] == st);
        },
        _ => {
            reveal(TurnModel::retrying);
            reveal(TurnModel::on_outbox);
            reveal(TurnModel::on_offered);
            assert(s.tunnel.streams == t.streams);
        },
    }
    if !(turn.phase is Inbox && turn.inbox.len() > 0) {
        assert(out + st.tcp_out =~= st.tcp_out + input);
    }
}

/// A step that serves a stream, seen from a TCP stream.
proof fn lemma_serving_delivers(
    turn: TurnModel,
    t: TunnelModel,
    event: EventModel,
    psk: Seq<char>,
    now: u64,
    i: int,
)
    requires
        crate::order::orderly(turn, t),
        crate::run::fits(turn, t, event),
        crate::order::stream_at(turn.phase) is Some,
        !crate::run::sweeping(turn, t),
        0 <= i < t.streams.len(),
        turn.step(t, event, psk, now).tunnel.streams[i].dead is None,
    ensures
        delivers(
            t.streams[i],
            turn.step(t, event, psk, now).tunnel.streams[i],
            wrote(turn, t, event, t.streams[i].id),
            arrived(turn, t, event, t.streams[i].id),
        ),
        turn.step(t, event, psk, now).tunnel.streams.len() == t.streams.len(),
{
    let s = turn.step(t, event, psk, now);
    let st = t.streams[i];
    let after = s.tunnel.streams[i];
    let out = wrote(turn, t, event, st.id);
    let input = arrived(turn, t, event, st.id);
    assert(input =~= Seq::empty());
    match turn.phase {
        Phase::Outbox { next } => {
            reveal(TurnModel::on_outbox);
        },
        Phase::Offering { next } => {
            reveal(TurnModel::on_offered);
        },
        Phase::Stream { stream } => {
            reveal(TurnModel::on_stream);
            reveal(TurnModel::flushing);
        },
        Phase::Writing { stream } => {
            reveal(TurnModel::on_wrote);
            reveal(TurnModel::flushing);
            let ids = crate::order::ids(t);
            assert(stream != i ==> ids[stream as int] != ids[i]);
        },
        Phase::Settle { stream } => {
            reveal(TurnModel::on_settle);
        },
        Phase::Read { .. } => {
            reveal(TurnModel::on_read);
        },
        Phase::Reading { .. } => {
            reveal(TurnModel::on_tcp_data);
            reveal(TurnModel::on_udp_data);
            reveal(TurnModel::on_read_end);
        },
        Phase::SendingTcp { .. } => {
            reveal(TurnModel::on_tcp_sent);
        },
        Phase::SendingUdp { .. } => {
            reveal(TurnModel::on_udp_sent);
        },
        Phase::Conclude { .. } => {
            reveal(TurnModel::on_conclude);
        },
        _ => {},
    }
    assert(out + after.tcp_out =~= st.tcp_out + input);
}

/// A step, seen from a TCP stream that is alive after it.
proof fn lemma_step_delivers(
    turn: TurnModel,
    t: TunnelModel,
    event: EventModel,
    psk: Seq<char>,
    now: u64,
    i: int,
    j: int,
)
    requires
        crate::order::orderly(turn, t),
        crate::run::fits(turn, t, event),
        0 <= i < t.streams.len(),
        ({
            let s = turn.step(t, event, psk, now);
            &&& crate::order::orderly(s.turn, s.tunnel)
            &&& 0 <= j < s.tunnel.streams.len()
            &&& s.tunnel.streams[j].id == t.streams[i].id
            &&& s.tunnel.streams[j].local == Some(LocalSock::Tcp)
            &&& s.tunnel.streams[j].dead is None
        }),
    ensures
        delivers(
            t.streams[i],
            turn.step(t, event, psk, now).tunnel.streams[j],
            wrote(turn, t, event, t.streams[i].id),
            arrived(turn, t, event, t.streams[i].id),
        ),
{
    let s = turn.step(t, event, psk, now);
    let st = t.streams[i];
    let ids = crate::order::ids(t);
    let left = crate::order::ids(s.tunnel);
    if crate::run::sweeping(turn, t) {
        reveal(TurnModel::on_stream);
        crate::lists::lemma_kept(t.streams, crate::tunnel::alive());
        let after = s.tunnel.streams[j];
        assert(s.tunnel.streams.contains(after));
        let k = choose|k: int| 0 <= k < t.streams.len() && t.streams[k] == after;
        assert(ids[k] == ids[i]);
        assert(wrote(turn, t, event, st.id) + after.tcp_out =~= st.tcp_out + arrived(
            turn,
            t,
            event,
            st.id,
        ));
    } else {
        crate::run::lemma_stays(turn, t, event, psk, now);
        assert(left[i] == ids[i]);
        assert(i == j) by {
            if i != j {
                assert(left[i] != left[j]);
            }
        }
        if crate::order::stream_at(turn.phase) is None {
            lemma_arrivals_deliver(turn, t, event, psk, now, i);
        } else {
            lemma_serving_delivers(turn, t, event, psk, now, i);
        }
    }
}

/// Delivery goes on where it stopped.
proof fn lemma_delivers_on(
    a: StreamModel,
    b: StreamModel,
    c: StreamModel,
    out: Seq<u8>,
    input: Seq<u8>,
    more_out: Seq<u8>,
    more_input: Seq<u8>,
)
    requires
        delivers(a, b, out, input),
        delivers(b, c, more_out, more_input),
    ensures
        delivers(a, c, out + more_out, input + more_input),
{
    assert(out + more_out + c.tcp_out =~= out + (more_out + c.tcp_out));
    assert(out + (b.tcp_out + more_input) =~= out + b.tcp_out + more_input);
    assert(a.tcp_out + input + more_input =~= a.tcp_out + (input + more_input));
    let m: int = 0x1_0000_0000_0000_0000;
    let x: int = a.rx_bytes + input.len();
    let y: int = more_input.len() as int;
    vstd::arithmetic::div_mod::lemma_add_mod_noop(x, y, m);
    vstd::arithmetic::div_mod::lemma_add_mod_noop(x % m, y, m);
    vstd::arithmetic::div_mod::lemma_mod_twice(x, m);
}

/// Over a whole turn, or the beginning of one, a TCP stream that is still alive
/// delivers in order and in full: what its local socket took, and what waits for
/// it after that, is what waited before and then the payloads of the data frames
/// that were taken for it. It counts those as received.
pub proof fn law_whole_turn_delivers(
    t: TunnelModel,
    events: Seq<(EventModel, u64)>,
    psk: Seq<char>,
    i: int,
    j: int,
)
    requires
        crate::order::ids(t).no_duplicates(),
        crate::run::fitting(t, events, psk),
        0 <= i < t.streams.len(),
        ({
            let left = crate::run::run(t, events, psk).tunnel.streams;
            &&& 0 <= j < left.len()
            &&& left[j].id == t.streams[i].id
            &&& left[j].local == Some(LocalSock::Tcp)
            &&& left[j].dead is None
        }),
    ensures
        delivers(
            t.streams[i],
            crate::run::run(t, events, psk).tunnel.streams[j],
            all_wrote(t, events, psk, t.streams[i].id),
            all_arrived(t, events, psk, t.streams[i].id),
        ),
    decreases events.len(),
{
    let sid = t.streams[i].id;
    let st = t.streams[i];
    let r = crate::run::run(t, events, psk);
    crate::run::lemma_run_step(t, events, psk);
    let ids = crate::order::ids(t);
    if events.len() == 0 {
        assert(i == j) by {
            if i != j {
                assert(ids[i] != ids[j]);
            }
        }
        let none = Seq::<u8>::empty();
        assert(none + st.tcp_out =~= st.tcp_out + none);
    } else {
        let init = events.drop_last();
        let b = crate::run::run(t, init, psk);
        let (event, now) = events.last();
        crate::run::lemma_course(t, init, psk);
        crate::run::lemma_course(t, events, psk);
        let k = if crate::run::ending(b.turn.phase) {
            crate::run::lemma_stays(b.turn, b.tunnel, event, psk, now);
            j
        } else {
            assert(crate::order::ids(b.tunnel)[i] == ids[i]);
            i
        };
        lemma_step_delivers(b.turn, b.tunnel, event, psk, now, k, j);
        law_whole_turn_delivers(t, init, psk, i, k);
        lemma_delivers_on(
            st,
            b.tunnel.streams[k],
            r.tunnel.streams[j],
            all_wrote(t, init, psk, sid),
            all_arrived(t, init, psk, sid),
            wrote(b.turn, b.tunnel, event, sid),
            arrived(b.turn, b.tunnel, event, sid),
        );
    }
}

} // verus!
