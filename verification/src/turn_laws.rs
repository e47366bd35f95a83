//! What each step of a turn does: that nothing that arrived, waits or can be
//! read is passed over.
use vstd::prelude::*;

use crate::protocol::{F_DATA, F_EOF};
use crate::stream::{CloseReason, Dir, LocalSock, ReadEnd, StreamModel, WriteOutcome};
use crate::tunnel::{ActionModel, TunnelModel};
use crate::turn::{AskModel, EventModel, Next, Phase, TurnModel};

verus! {

/// A turn begins with the frames that wait: the first is offered to Steam, and
/// each that is taken leaves the queue and makes way for the next. A refusal
/// ends the retries and loses nothing; after them what arrived is taken.
pub proof fn law_retries(turn: TurnModel, t: TunnelModel, ok: bool, psk: Seq<char>, now: u64)
    ensures
        turn.phase is Start ==> {
            let s = turn.step(t, EventModel::Go, psk, now);
            &&& s.tunnel == t
            &&& t.pending.len() > 0 ==> s.ask == AskModel::Offer(t.pending[0])
                && s.turn.phase is Retry
            &&& t.pending.len() == 0 ==> s.ask is Receive && s.turn.phase is Receive
        },
        turn.phase is Retry && t.pending.len() > 0 ==> {
            let s = turn.step(t, EventModel::Sent(ok), psk, now);
            &&& s.tunnel.pending == if ok {
                t.pending.skip(1)
            } else {
                t.pending
            }
            &&& s.tunnel == TunnelModel { pending: s.tunnel.pending, ..t }
            &&& ok && t.pending.len() > 1 ==> s.ask == AskModel::Offer(t.pending[1])
                && s.turn.phase is Retry
            &&& !ok || t.pending.len() == 1 ==> s.ask is Receive && s.turn.phase is Receive
        },
{
    reveal(TurnModel::retrying);
}

/// All messages that arrived are taken, in order, each as the tunnel takes it;
/// what a message asks for is asked for, and its lines are logged. After the
/// last the streams are served from the first on.
pub proof fn law_messages(
    turn: TurnModel,
    t: TunnelModel,
    ms: Seq<Seq<u8>>,
    psk: Seq<char>,
    now: u64,
)
    ensures
        turn.phase is Receive ==> {
            let s = turn.step(t, EventModel::Messages(ms), psk, now);
            s.turn.inbox == ms && s.turn.phase is Inbox && s.tunnel == t
        },
        turn.phase is Inbox && turn.inbox.len() == 0 ==> {
            let s = turn.step(t, EventModel::Go, psk, now);
            s.turn.phase == (Phase::Stream { stream: 0 }) && s.tunnel == t
        },
        turn.phase is Inbox && turn.inbox.len() > 0 ==> {
            let o = t.on_message(turn.inbox[0], psk, now);
            let s = turn.step(t, EventModel::Go, psk, now);
            &&& s.tunnel == o.tunnel
            &&& s.log == o.log
            &&& s.turn.inbox == turn.inbox.skip(1)
            &&& match o.action {
                ActionModel::Nothing => s.ask is Continue && s.turn.phase is Inbox,
                ActionModel::Send(m) => s.ask == AskModel::Send(m) && s.turn.phase is Inbox,
                ActionModel::Frames(fs) => s.turn.outbox == fs && s.turn.phase == (
                Phase::Outbox { next: Next::Inbox }),
                ActionModel::Open { sid } => s.ask == (AskModel::Open { sid }) && s.turn.phase == (
                Phase::Opening { sid }),
                ActionModel::OpenFlow { sid, payload } => s.ask == (AskModel::Open { sid })
                    && s.turn.phase == (Phase::OpeningFlow { sid }) && s.turn.held == payload,
                ActionModel::Datagram { sid, peer, payload } => s.ask == (AskModel::Deliver {
                    sid,
                    peer,
                    payload,
                }) && s.turn.phase is Inbox,
                ActionModel::Stop => s.ask is Finished && s.turn.phase is End,
            }
        },
{
    reveal(TurnModel::on_inbox);
    reveal(TurnModel::acting);
}

/// What came of connecting to the target is taken as the tunnel takes it, with
/// the datagram that waited for it; what arrived after it is taken next.
pub proof fn law_connects(
    turn: TurnModel,
    t: TunnelModel,
    sid: u32,
    r: Result<(), Seq<char>>,
    psk: Seq<char>,
    now: u64,
)
    ensures
        turn.phase == (Phase::Opening { sid }) ==> {
            let o = t.on_opened(sid, r, now);
            let s = turn.step(t, EventModel::Opened(r), psk, now);
            &&& s.tunnel == o.tunnel
            &&& s.log == o.log
            &&& s.turn.inbox == turn.inbox
            &&& r is Ok ==> s.turn.phase is Inbox && s.ask is Continue
            &&& r is Err ==> s.turn.phase == (Phase::Outbox { next: Next::Inbox })
                && o.action == ActionModel::Frames(s.turn.outbox)
        },
        turn.phase == (Phase::OpeningFlow { sid }) ==> {
            let o = t.on_flow_opened(sid, r is Ok, turn.held, now);
            let s = turn.step(t, EventModel::Opened(r), psk, now);
            &&& s.tunnel == o.tunnel
            &&& s.turn.inbox == turn.inbox
            &&& s.turn.phase is Inbox
            &&& o.action matches ActionModel::Datagram { sid: to, peer, payload } ==> s.ask == (
            AskModel::Deliver { sid: to, peer, payload })
        },
{
    reveal(TurnModel::acting);
}

/// Frames are sent in order: one is offered to Steam if none waits, and waits
/// behind the others if one does or if Steam refuses it. When all are sent the
/// turn goes on where it left off.
pub proof fn law_sends(
    turn: TurnModel,
    t: TunnelModel,
    next: Next,
    ok: bool,
    psk: Seq<char>,
    now: u64,
)
    ensures
        turn.phase == (Phase::Outbox { next }) && turn.outbox.len() > 0 ==> {
            let s = turn.step(t, EventModel::Go, psk, now);
            &&& s.turn.outbox == turn.outbox.skip(1)
            &&& t.pending.len() == 0 ==> s.ask == AskModel::Offer(turn.outbox[0]) && s.turn.held
                == turn.outbox[0] && s.turn.phase == (Phase::Offering { next }) && s.tunnel == t
            &&& t.pending.len() > 0 ==> s.turn.phase == turn.phase && s.tunnel == TunnelModel {
                pending: t.pending.push(turn.outbox[0]),
                ..t
            }
        },
        turn.phase == (Phase::Outbox { next }) && turn.outbox.len() == 0 ==> {
            let s = turn.step(t, EventModel::Go, psk, now);
            &&& s.tunnel == t
            &&& match next {
                Next::Inbox => s.turn.phase is Inbox,
                Next::Conclude(i) => s.turn.phase == (Phase::Conclude { stream: i }),
                Next::End => s.turn.phase is End && s.ask is Finished,
            }
        },
        turn.phase == (Phase::Offering { next }) ==> {
            let s = turn.step(t, EventModel::Sent(ok), psk, now);
            &&& s.turn.phase == (Phase::Outbox { next })
            &&& s.turn.outbox == turn.outbox
            &&& s.tunnel == TunnelModel {
                pending: if ok {
                    t.pending
                } else {
                    t.pending.push(turn.held)
                },
                ..t
            }
        },
{
    reveal(TurnModel::on_outbox);
    reveal(TurnModel::on_offered);
}

/// Every stream is served: a live one is written to as long as something waits
/// for its socket and that takes it, a dead one is passed over; and after the
/// last one the dead are dropped.
pub proof fn law_serves(
    turn: TurnModel,
    t: TunnelModel,
    i: usize,
    n: usize,
    psk: Seq<char>,
    now: u64,
)
    requires
        i < t.streams.len(),
        i < usize::MAX,
    ensures
        turn.phase == (Phase::Stream { stream: i }) ==> {
            let st = t.streams[i as int];
            let s = turn.step(t, EventModel::Go, psk, now);
            let waits = st.local == Some(LocalSock::Tcp) && st.tcp_out.len() > 0;
            &&& s.tunnel == t
            &&& st.dead is Some ==> s.turn.phase == (Phase::Stream { stream: (i + 1) as usize })
            &&& st.dead is None && waits ==> s.ask == (AskModel::Write { stream: i })
                && s.turn.phase == (Phase::Writing { stream: i })
            &&& st.dead is None && !waits ==> s.turn.phase == (Phase::Settle { stream: i })
        },
        turn.phase == (Phase::Writing { stream: i }) && 0 < n <= t.streams[i as int].tcp_out.len()
            && t.streams[i as int].local == Some(LocalSock::Tcp) ==> {
            let st = t.streams[i as int];
            let s = turn.step(t, EventModel::Wrote(WriteOutcome::Wrote(n)), psk, now);
            &&& s.tunnel.streams == t.streams.update(
                i as int,
                StreamModel { tcp_out: st.tcp_out.skip(n as int), ..st },
            )
            &&& s.tunnel == TunnelModel { streams: s.tunnel.streams, ..t }
            &&& n < st.tcp_out.len() ==> s.ask == (AskModel::Write { stream: i })
                && s.turn.phase == (Phase::Writing { stream: i })
            &&& n == st.tcp_out.len() ==> s.turn.phase == (Phase::Settle { stream: i })
        },
        turn.phase == (Phase::Writing { stream: i }) ==> {
            let s = turn.step(t, EventModel::Wrote(WriteOutcome::WouldBlock), psk, now);
            s.tunnel.streams == t.streams && s.turn.phase == (Phase::Settle { stream: i })
        },
{
    reveal(TurnModel::on_stream);
    reveal(TurnModel::flushing);
    reveal(TurnModel::on_wrote);
    assert(t.streams.update(i as int, t.streams[i as int]) =~= t.streams);
}

/// A settled stream is read where there is something to read from: a live TCP
/// socket that has not ended up to 8 times, a flow's socket on the host up to
/// 64 times, neither while a frame waits. The write half is shut down when it
/// is due.
pub proof fn law_settled_read(
    turn: TurnModel,
    t: TunnelModel,
    i: usize,
    psk: Seq<char>,
    now: u64,
)
    requires
        i < t.streams.len(),
        turn.phase == (Phase::Settle { stream: i }),
    ensures
        ({
            let st = t.streams[i as int];
            let after = st.settled();
            let s = turn.step(t, EventModel::Go, psk, now);
            &&& s.tunnel == TunnelModel { streams: t.streams.update(i as int, after), ..t }
            &&& s.ask == if st.half_closes() {
                AskModel::ShutWrite { stream: i }
            } else {
                AskModel::Continue
            }
            &&& after.dead is None && t.pending.len() == 0 && after.local == Some(LocalSock::Tcp)
                && !after.tcp_eof ==> s.turn.phase == (Phase::Read {
                stream: i,
                udp: false,
                left: 8,
            })
            &&& after.dead is None && t.pending.len() == 0 && t.dir == Dir::In && (
            after.local matches Some(LocalSock::Udp { peer }) && true) ==> s.turn.phase == (
            Phase::Read { stream: i, udp: true, left: 64 })
            &&& after.dead is Some || t.pending.len() > 0 ==> s.turn.phase == (Phase::Conclude {
                stream: i,
            })
        }),
{
    reveal(TurnModel::on_settle);
}

/// A stream that is read is read as often as it may, and then concluded.
pub proof fn law_read_again(
    turn: TurnModel,
    t: TunnelModel,
    i: usize,
    udp: bool,
    left: usize,
    psk: Seq<char>,
    now: u64,
)
    requires
        turn.phase == (Phase::Read { stream: i, udp, left }),
    ensures
        ({
            let s = turn.step(t, EventModel::Go, psk, now);
            &&& s.tunnel == t
            &&& left == 0 ==> s.turn.phase == (Phase::Conclude { stream: i })
            &&& left > 0 ==> s.turn.phase == (Phase::Reading {
                stream: i,
                udp,
                left: (left - 1) as usize,
            }) && s.ask == if udp {
                AskModel::ReadUdp { stream: i }
            } else {
                AskModel::ReadTcp { stream: i }
            }
        }),
{
    reveal(TurnModel::on_read);
}

/// Bytes that were read from a TCP socket are offered to Steam in a data frame
/// of the stream if the peer knows of it, and held back in order if not. The
/// end of the local program's direction is told to the peer if it knows of the
/// stream.
pub proof fn law_tcp_read(
    turn: TurnModel,
    t: TunnelModel,
    i: usize,
    left: usize,
    data: Seq<u8>,
    psk: Seq<char>,
    now: u64,
)
    requires
        i < t.streams.len(),
        turn.phase == (Phase::Reading { stream: i, udp: false, left }),
        t.pending.len() == 0,
    ensures
        ({
            let st = t.streams[i as int];
            let s = turn.step(t, EventModel::Data(data), psk, now);
            let f = crate::protocol::frame_bytes(F_DATA, st.id, data);
            &&& st.open_sent ==> s.ask == AskModel::Offer(f) && s.turn.held == f && s.turn.phase
                == (Phase::SendingTcp { stream: i, left }) && s.tunnel == t
            &&& !st.open_sent && st.pre_buf.len() + data.len() <= 4194304 ==> s.turn.phase == (
            Phase::Read { stream: i, udp: false, left }) && s.tunnel == (TunnelModel {
                streams: t.streams.update(
                    i as int,
                    StreamModel { pre_buf: st.pre_buf + data, ..st },
                ),
                ..t
            })
        }),
        ({
            let st = t.streams[i as int];
            let s = turn.step(t, EventModel::Ended(ReadEnd::Eof), psk, now);
            let f = crate::protocol::frame_bytes(F_EOF, st.id, Seq::empty());
            &&& s.tunnel == TunnelModel {
                streams: t.streams.update(i as int, StreamModel { tcp_eof: true, ..st }),
                ..t
            }
            &&& st.open_sent ==> s.ask == AskModel::Offer(f) && s.turn.held == f && s.turn.phase
                == (Phase::Offering { next: Next::Conclude(i) })
            &&& !st.open_sent ==> s.turn.phase == (Phase::Conclude { stream: i })
        }),
        ({
            let s = turn.step(t, EventModel::Ended(ReadEnd::WouldBlock), psk, now);
            s.turn.phase == (Phase::Conclude { stream: i }) && s.tunnel.streams == t.streams
        }),
{
    reveal(TurnModel::on_tcp_data);
    reveal(TurnModel::on_read_end);
    assert(t.streams.update(i as int, t.streams[i as int]) =~= t.streams);
}

/// Reading goes on after Steam took what was read. A refusal ends it for TCP,
/// whose frame then waits, and does not for datagrams.
pub proof fn law_sent_on(
    turn: TurnModel,
    t: TunnelModel,
    i: usize,
    left: usize,
    count: u64,
    ok: bool,
    psk: Seq<char>,
    now: u64,
)
    requires
        i < t.streams.len(),
    ensures
        turn.phase == (Phase::SendingTcp { stream: i, left }) && turn.held.len() >= 5 ==> {
            let s = turn.step(t, EventModel::Sent(ok), psk, now);
            &&& s.tunnel == t.on_tcp_sent(i as int, turn.held, ok)
            &&& ok ==> s.turn.phase == (Phase::Read { stream: i, udp: false, left })
            &&& !ok ==> s.turn.phase == (Phase::Conclude { stream: i })
        },
        turn.phase == (Phase::SendingUdp { stream: i, left, count }) ==> {
            let s = turn.step(t, EventModel::Sent(ok), psk, now);
            &&& s.tunnel == t.on_udp_sent(i as int, count, ok)
            &&& s.turn.phase == (Phase::Read { stream: i, udp: true, left })
        },
{
    reveal(TurnModel::on_tcp_sent);
    reveal(TurnModel::on_udp_sent);
}

/// A datagram that was read counts as activity of its flow, and as sent with
/// all its bytes once Steam took it; a read without one ends the flow's part.
pub proof fn law_udp_read(
    turn: TurnModel,
    t: TunnelModel,
    i: usize,
    left: usize,
    data: Seq<u8>,
    end: ReadEnd,
    psk: Seq<char>,
    now: u64,
)
    requires
        i < t.streams.len(),
        turn.phase == (Phase::Reading { stream: i, udp: true, left }),
        data.len() <= 65536,
    ensures
        ({
            let s = turn.step(t, EventModel::Data(data), psk, now);
            &&& s.turn.phase == (Phase::SendingUdp { stream: i, left, count: data.len() as u64 })
            &&& s.tunnel == (TunnelModel {
                streams: t.streams.update(
                    i as int,
                    StreamModel { last_activity: now, ..t.streams[i as int] },
                ),
                ..t
            })
        }),
        ({
            let s = turn.step(t, EventModel::Ended(end), psk, now);
            s.turn.phase == (Phase::Conclude { stream: i }) && s.tunnel == t
        }),
{
    reveal(TurnModel::on_udp_data);
    reveal(TurnModel::on_read_end);
}

/// A stream's part ends with looking whether the stream does, and the next
/// stream is served.
pub proof fn law_concludes(turn: TurnModel, t: TunnelModel, i: usize, psk: Seq<char>, now: u64)
    requires
        i < t.streams.len(),
        i < usize::MAX,
        turn.phase == (Phase::Conclude { stream: i }),
    ensures
        ({
            let s = turn.step(t, EventModel::Go, psk, now);
            &&& s.turn.phase == (Phase::Stream { stream: (i + 1) as usize })
            &&& s.tunnel == (TunnelModel {
                streams: t.streams.update(
                    i as int,
                    t.streams[i as int].concluded(t.udp, now),
                ),
                ..t
            })
        }),
{
    reveal(TurnModel::on_conclude);
}


/// An event that does not answer what was asked for ends the turn and changes
/// nothing, and a turn that is over stays over.
pub proof fn law_out_of_place(
    turn: TurnModel,
    t: TunnelModel,
    event: EventModel,
    psk: Seq<char>,
    now: u64,
)
    requires
        !crate::order::answers(turn, event) || turn.phase is End,
    ensures
        ({
            let s = turn.step(t, event, psk, now);
            s.turn.phase is End && s.ask is Finished && s.tunnel == t && s.log.len() == 0
        }),
{
}

/// A local socket that takes nothing more or fails ends its stream, and the
/// turn goes on.
pub proof fn law_write_fails(turn: TurnModel, t: TunnelModel, i: usize, psk: Seq<char>, now: u64)
    requires
        i < t.streams.len(),
        turn.phase == (Phase::Writing { stream: i }),
    ensures
        ({
            let st = t.streams[i as int];
            let closed = turn.step(t, EventModel::Wrote(WriteOutcome::Wrote(0)), psk, now);
            let failed = turn.step(t, EventModel::Wrote(WriteOutcome::Failed), psk, now);
            &&& closed.tunnel == (TunnelModel {
                streams: t.streams.update(
                    i as int,
                    StreamModel { dead: Some(CloseReason::LocalClosed), ..st },
                ),
                ..t
            })
            &&& failed.tunnel == (TunnelModel {
                streams: t.streams.update(
                    i as int,
                    StreamModel { dead: Some(CloseReason::WriteError), ..st },
                ),
                ..t
            })
            &&& closed.turn.phase == (Phase::Settle { stream: i })
            &&& failed.turn.phase == (Phase::Settle { stream: i })
        }),
{
    reveal(TurnModel::on_wrote);
    reveal(TurnModel::flushing);
}

} // verus!
