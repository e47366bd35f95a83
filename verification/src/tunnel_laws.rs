//! What messages, time and local sockets do to a tunnel and its streams.
use vstd::prelude::*;

use crate::protocol::{SendMode, F_CLOSE, F_DATA, F_EOF, F_OPEN};
use crate::stream::{
    CloseReason, Dir, FlowAddr, LocalRead, LocalSock, ReadEnd, StreamModel, WriteOutcome,
};
use crate::tunnel::{ActionModel, ConnState, Health, TunnelModel};
use crate::turn::{AskModel, EventModel, Phase, TurnModel};

verus! {

/// Whether the stream at `i` is the live one of its id.
pub open spec fn is_live(t: TunnelModel, i: int) -> bool {
    &&& 0 <= i < t.streams.len()
    &&& t.streams[i].dead is None
    &&& forall|j: int| 0 <= j < i ==> (#[trigger] t.streams[j]).id != t.streams[i].id
}

/// A live stream is found by its id.
proof fn lemma_live(t: TunnelModel, i: int)
    requires
        is_live(t, i),
    ensures
        crate::lists::first_where(
            t.streams,
            crate::tunnel::live_with_id(t.streams[i].id),
        ) == Some(i),
        t.has_stream(t.streams[i].id),
{
    let id = t.streams[i].id;
    crate::lists::lemma_first_where_is(t.streams, crate::tunnel::live_with_id(id), i);
    crate::lists::lemma_first_where_is(t.streams, crate::tunnel::with_id(id), i);
}

/// On an open tunnel a data frame for a live UDP stream asks for exactly one
/// datagram on that stream's local socket, with the payload unchanged and to
/// the stream's own address: none on the host, the flow's source address on
/// the client. It is counted as received, and nothing else changes.
pub proof fn law_datagram_delivered(
    t: TunnelModel,
    i: int,
    peer: Option<FlowAddr>,
    payload: Seq<u8>,
    psk: Seq<char>,
    now: u64,
)
    requires
        t.state == ConnState::Active,
        is_live(t, i),
        t.streams[i].local == Some(LocalSock::Udp { peer }),
    ensures
        ({
            let st = t.streams[i];
            let o = t.on_message(
                crate::protocol::frame_bytes(F_DATA, st.id, payload),
                psk,
                now,
            );
            &&& o.action == ActionModel::Datagram { sid: st.id, peer, payload }
            &&& o.log.len() == 0
            &&& o.tunnel.streams == t.streams.update(
                i,
                StreamModel {
                    rx_bytes: st.rx_bytes.wrapping_add(payload.len() as u64),
                    last_activity: now,
                    ..st
                },
            )
            &&& o.tunnel == TunnelModel {
                streams: o.tunnel.streams,
                rx_bytes: t.rx_bytes.wrapping_add(payload.len() as u64),
                ..t
            }
        }),
{
    lemma_live(t, i);
    crate::protocol::law_frame_round_trip(F_DATA, t.streams[i].id, payload);
}

/// From a local program to the friend's service: what the client reads from a
/// flow's address is what the host sends to its service for that flow.
pub proof fn law_datagram_to_service(
    client: TunnelModel,
    i: int,
    host: TunnelModel,
    j: int,
    data: Seq<u8>,
    psk: Seq<char>,
    now: u64,
)
    requires
        0 <= i < client.streams.len(),
        client.streams[i].open_sent,
        host.state == ConnState::Active,
        is_live(host, j),
        host.streams[j].id == client.streams[i].id,
        host.streams[j].local == Some(LocalSock::Udp { peer: None }),
    ensures
        client.datagram_out(i, data) matches Some((message, mode)) && host.on_message(
            message,
            psk,
            now,
        ).action == (ActionModel::Datagram { sid: client.streams[i].id, peer: None, payload: data }),
{
    law_datagram_delivered(host, j, None, data, psk, now);
}

/// A datagram goes out at once where it fits into one packet of 1150 bytes with
/// its header of 5, and reliably where it does not; without the peer knowing of
/// the flow it does not go out.
pub proof fn law_datagram_mode(t: TunnelModel, i: int, data: Seq<u8>)
    ensures
        t.streams[i].open_sent && data.len() <= 1145 ==> (t.datagram_out(i, data) matches Some(m)
            && m.1 == SendMode::Unreliable),
        t.streams[i].open_sent && data.len() > 1145 ==> (t.datagram_out(i, data) matches Some(m)
            && m.1 == SendMode::Reliable),
        !t.streams[i].open_sent ==> t.datagram_out(i, data) is None,
{
}

/// From the friend's service back to the local program: what the host reads
/// from a flow's socket it offers to Steam in one message, and that message has
/// the client send the same bytes to the address that the flow is for.
pub proof fn law_datagram_to_program(
    host: TunnelModel,
    turn: TurnModel,
    j: usize,
    left: usize,
    client: TunnelModel,
    i: int,
    src: FlowAddr,
    data: Seq<u8>,
    psk: Seq<char>,
    now: u64,
)
    requires
        turn.phase == (Phase::Reading { stream: j, udp: true, left }),
        j < host.streams.len(),
        data.len() <= 65536,
        client.state == ConnState::Active,
        is_live(client, i),
        client.streams[i].id == host.streams[j as int].id,
        client.streams[i].local == Some(LocalSock::Udp { peer: Some(src) }),
    ensures
        turn.step(host, EventModel::Data(data), psk, now).ask matches AskModel::OfferDatagram {
            message,
            mode,
        } && {
            &&& mode == SendMode::Unreliable <==> data.len() <= 1145
            &&& client.on_message(message, psk, now).action == (ActionModel::Datagram {
                sid: client.streams[i].id,
                peer: Some(src),
                payload: data,
            })
        },
{
    reveal(TurnModel::on_udp_data);
    law_datagram_delivered(client, i, Some(src), data, psk, now);
}

/// A datagram that outruns the opening of its flow has the host open the flow,
/// under the same id, and is then delivered like any other; if the flow cannot
/// be opened the datagram is lost and nothing changes.
pub proof fn law_first_datagram(
    t: TunnelModel,
    sid: u32,
    payload: Seq<u8>,
    psk: Seq<char>,
    now: u64,
)
    requires
        t.state == ConnState::Active,
        t.dir == Dir::In,
        t.udp,
        forall|k: int| 0 <= k < t.streams.len() ==> (#[trigger] t.streams[k]).id != sid,
    ensures
        ({
            let o = t.on_message(
                crate::protocol::frame_bytes(F_DATA, sid, payload),
                psk,
                now,
            );
            o.action == (ActionModel::OpenFlow { sid, payload }) && o.tunnel == t
        }),
        ({
            let o = t.on_flow_opened(sid, true, payload, now);
            let st = o.tunnel.streams.last();
            &&& o.action == (ActionModel::Datagram { sid, peer: None, payload })
            &&& o.tunnel.streams.drop_last() == t.streams
            &&& st.id == sid
            &&& st.local == Some(LocalSock::Udp { peer: None })
            &&& st.open_sent
            &&& st.dead is None
        }),
        t.on_flow_opened(sid, false, payload, now).action == ActionModel::Nothing,
        t.on_flow_opened(sid, false, payload, now).tunnel == t,
{
    crate::protocol::law_frame_round_trip(F_DATA, sid, payload);
    crate::lists::lemma_first_where(t.streams, crate::tunnel::with_id(sid));
    crate::lists::lemma_first_where(t.streams, crate::tunnel::live_with_id(sid));
    let u = t.with_stream(t.host_stream(sid, now));
    let n = t.streams.len() as int;
    assert forall|j: int| 0 <= j < n implies (#[trigger] u.streams[j]).id != sid by {
        assert(u.streams[j] == t.streams[j]);
    }
    assert(u.streams[n].id == sid);
    lemma_live(u, n);
    let o = t.on_flow_opened(sid, true, payload, now);
    assert(o.tunnel.streams.drop_last() =~= t.streams);
}

/// The end of the peer's direction, and a close, are noted on the live stream
/// they are for and change nothing else; for a stream that is not there they
/// change nothing at all.
pub proof fn law_ends_noted(t: TunnelModel, i: int, sid: u32, psk: Seq<char>, now: u64)
    requires
        t.state == ConnState::Active,
    ensures
        is_live(t, i) ==> {
            let st = t.streams[i];
            let eof = t.on_message(
                crate::protocol::frame_bytes(F_EOF, st.id, Seq::empty()),
                psk,
                now,
            );
            let close = t.on_message(
                crate::protocol::frame_bytes(F_CLOSE, st.id, Seq::empty()),
                psk,
                now,
            );
            &&& eof.action == ActionModel::Nothing && close.action == ActionModel::Nothing
            &&& eof.tunnel == TunnelModel {
                streams: t.streams.update(i, StreamModel { remote_eof: true, ..st }),
                ..t
            }
            &&& close.tunnel == TunnelModel {
                streams: t.streams.update(i, StreamModel { reset: true, tcp_eof: true, ..st }),
                ..t
            }
        },
        (forall|k: int| 0 <= k < t.streams.len() ==> (#[trigger] t.streams[k]).id != sid) ==> {
            let eof = t.on_message(
                crate::protocol::frame_bytes(F_EOF, sid, Seq::empty()),
                psk,
                now,
            );
            let close = t.on_message(
                crate::protocol::frame_bytes(F_CLOSE, sid, Seq::empty()),
                psk,
                now,
            );
            &&& eof.tunnel == t && close.tunnel == t
            &&& eof.action == ActionModel::Nothing && close.action == ActionModel::Nothing
        },
{
    if is_live(t, i) {
        lemma_live(t, i);
        crate::protocol::law_frame_round_trip(F_EOF, t.streams[i].id, Seq::empty());
        crate::protocol::law_frame_round_trip(F_CLOSE, t.streams[i].id, Seq::empty());
    }
    crate::protocol::law_frame_round_trip(F_EOF, sid, Seq::empty());
    crate::protocol::law_frame_round_trip(F_CLOSE, sid, Seq::empty());
    crate::lists::lemma_first_where(t.streams, crate::tunnel::live_with_id(sid));
}

/// A frame of a type that does not exist ends an open tunnel; a message that is
/// too short for a frame is ignored. On the host a stream is opened for an id
/// that is not in use, and only there and only then.
pub proof fn law_other_frames(
    t: TunnelModel,
    ftype: u8,
    sid: u32,
    payload: Seq<u8>,
    data: Seq<u8>,
    psk: Seq<char>,
    now: u64,
)
    requires
        t.state == ConnState::Active,
        t.dead is None,
    ensures
        ftype > 3 ==> {
            let o = t.on_message(crate::protocol::frame_bytes(ftype, sid, payload), psk, now);
            o.action == ActionModel::Stop && o.tunnel.dead == Some(CloseReason::BadFrame)
        },
        data.len() < 5 ==> t.on_message(data, psk, now).tunnel == t && t.on_message(
            data,
            psk,
            now,
        ).action == ActionModel::Nothing,
        ({
            let o = t.on_message(crate::protocol::frame_bytes(F_OPEN, sid, payload), psk, now);
            let taken = exists|k: int|
                0 <= k < t.streams.len() && (#[trigger] t.streams[k]).id == sid;
            &&& o.tunnel == t
            &&& o.action == if t.dir == Dir::In && !taken {
                ActionModel::Open { sid }
            } else {
                ActionModel::Nothing
            }
        }),
{
    crate::protocol::law_frame_round_trip(ftype, sid, payload);
    crate::protocol::law_frame_round_trip(F_OPEN, sid, payload);
    crate::lists::lemma_first_where(t.streams, crate::tunnel::with_id(sid));
}

/// A stream that the host connected is there under its id, with a socket of the
/// tunnel's protocol, known to the peer and alive, behind the others. One that
/// it could not connect is not there, and the peer is told with a close frame;
/// the log says why.
pub proof fn law_opened(t: TunnelModel, sid: u32, error: Seq<char>, now: u64)
    ensures
        ({
            let o = t.on_opened(sid, Ok(()), now);
            let st = o.tunnel.streams.last();
            &&& o.action == ActionModel::Nothing
            &&& o.tunnel.streams.drop_last() == t.streams
            &&& st.id == sid
            &&& st.local == Some(
                if t.udp {
                    LocalSock::Udp { peer: None }
                } else {
                    LocalSock::Tcp
                },
            )
            &&& st.open_sent && st.dead is None && st.mapping_id is None
            &&& st.tcp_out.len() == 0 && st.pre_buf.len() == 0
            &&& !st.tcp_eof && !st.remote_eof && !st.reset && !st.wr_shutdown
            &&& t.streams_served < u64::MAX ==> o.tunnel.streams_served == t.streams_served + 1
            &&& o.tunnel == TunnelModel {
                streams: o.tunnel.streams,
                streams_served: o.tunnel.streams_served,
                ..t
            }
        }),
        ({
            let o = t.on_opened(sid, Err(error), now);
            &&& o.tunnel == t
            &&& o.action == ActionModel::Frames(
                seq![crate::protocol::frame_bytes(F_CLOSE, sid, Seq::empty())],
            )
            &&& o.log == seq![
                "Tunnel "@ + crate::text::decimal(t.id as nat) + ": stream "@
                    + crate::text::decimal(sid as nat) + " failed: "@ + error,
            ]
        }),
{
    let o = t.on_opened(sid, Ok(()), now);
    assert(o.tunnel.streams.drop_last() =~= t.streams);
}

/// Time ends a tunnel whose handshake takes more than 20 seconds, and an open
/// outgoing one without streams for more than 120 seconds; nothing else. While
/// a tunnel has streams its idle time starts anew.
pub proof fn law_timeouts(t: TunnelModel, now: u64)
    requires
        t.dead is None,
        t.created <= now,
        t.idle_since <= now,
    ensures
        ({
            let a = t.aged(now);
            let slow = t.state != ConnState::Active && now - t.created > 20_000_000_000;
            let idle = t.streams.len() == 0 && t.dir == Dir::Out && t.state == ConnState::Active
                && now - t.idle_since > 120_000_000_000;
            &&& slow ==> a.dead == Some(CloseReason::HandshakeTimeout)
            &&& idle ==> a.dead == Some(CloseReason::Idle)
            &&& !slow && !idle ==> a.dead is None
            &&& t.streams.len() > 0 ==> a.idle_since == now
            &&& t.streams.len() == 0 ==> a.idle_since == t.idle_since
            &&& a == TunnelModel { dead: a.dead, idle_since: a.idle_since, ..t }
        }),
{
}

/// What Steam says of a connection ends its tunnel for that reason, unless it
/// says that it is fine.
pub proof fn law_health(t: TunnelModel)
    requires
        t.dead is None,
    ensures
        t.checked(Health::Fine) == t,
        t.checked(Health::ClosedByPeer) == (TunnelModel {
            dead: Some(CloseReason::ClosedByPeer),
            ..t
        }),
        t.checked(Health::Problem) == (TunnelModel {
            dead: Some(CloseReason::ConnectionProblem),
            ..t
        }),
        t.checked(Health::Gone) == (TunnelModel { dead: Some(CloseReason::ConnectionGone), ..t }),
{
}

/// Data for a TCP stream waits behind what already does, up to 64 MiB; more
/// than that ends the stream. What a local program sends before its tunnel is
/// open is held back in order, up to 4 MiB; more than that ends the stream.
pub proof fn law_buffers(st: StreamModel, data: Seq<u8>, now: u64)
    requires
        st.dead is None,
        st.local == Some(LocalSock::Tcp),
    ensures
        ({
            let d = st.delivered(data, now);
            &&& st.tcp_out.len() + data.len() <= 67108864 ==> d.tcp_out == st.tcp_out + data
                && d.dead is None
            &&& st.tcp_out.len() + data.len() > 67108864 ==> d.dead == Some(
                CloseReason::BufferOverflow,
            ) && d.tcp_out == st.tcp_out
            &&& d.rx_bytes == st.rx_bytes.wrapping_add(data.len() as u64)
            &&& d == StreamModel {
                tcp_out: d.tcp_out,
                dead: d.dead,
                rx_bytes: d.rx_bytes,
                last_activity: now,
                ..st
            }
        }),
        ({
            let h = st.held_back(data);
            &&& st.pre_buf.len() + data.len() <= 4194304 ==> h == StreamModel {
                pre_buf: st.pre_buf + data,
                ..st
            }
            &&& st.pre_buf.len() + data.len() > 4194304 ==> h == StreamModel {
                dead: Some(CloseReason::HandshakeBufferOverflow),
                ..st
            }
        }),
{
}

/// A flow that was silent for more than 120 seconds ends; a TCP stream does not
/// end for silence, but when both sides have finished and all is delivered.
pub proof fn law_stream_ends(st: StreamModel, now: u64)
    requires
        st.dead is None,
        st.last_activity <= now,
    ensures
        now - st.last_activity > 120_000_000_000 ==> st.concluded(true, now) == (StreamModel {
            dead: Some(CloseReason::FlowIdle),
            ..st
        }),
        now - st.last_activity <= 120_000_000_000 ==> st.concluded(true, now) == st,
        st.tcp_eof && st.remote_eof && st.tcp_out.len() == 0 ==> st.concluded(false, now) == (
        StreamModel { dead: Some(CloseReason::Finished), ..st }),
        !(st.tcp_eof && st.remote_eof && st.tcp_out.len() == 0) ==> st.concluded(false, now) == st,
{
}

/// Writing to a local socket takes what was written from the front of what
/// waits; a socket that takes nothing is closed, and one that fails ends the
/// stream.
pub proof fn law_writes(st: StreamModel, a: Seq<u8>, b: Seq<u8>)
    requires
        st.tcp_out == a + b,
        a.len() > 0,
        a.len() <= usize::MAX,
    ensures
        st.written(WriteOutcome::Wrote(a.len() as usize)) == (StreamModel { tcp_out: b, ..st }),
        st.written(WriteOutcome::WouldBlock) == st,
        st.written(WriteOutcome::Wrote(0)) == (StreamModel {
            dead: Some(CloseReason::LocalClosed),
            ..st
        }),
        st.written(WriteOutcome::Failed) == (StreamModel {
            dead: Some(CloseReason::WriteError),
            ..st
        }),
{
    assert((a + b).skip(a.len() as int) =~= b);
}

/// The end of a local program's direction is noted; a failed read ends the
/// stream, and one without bytes changes nothing.
pub proof fn law_read_ends(st: StreamModel)
    requires
        st.dead is None,
    ensures
        st.read_ended(ReadEnd::Eof) == (StreamModel { tcp_eof: true, ..st }),
        st.read_ended(ReadEnd::WouldBlock) == st,
        st.read_ended(ReadEnd::Failed) == (StreamModel {
            dead: Some(CloseReason::ReadError),
            ..st
        }),
{
}

/// The write half of a TCP socket is shut down once, when the peer has finished
/// and all is delivered, and not on a stream that the peer closed; that one ends
/// when all is delivered.
pub proof fn law_settles(st: StreamModel)
    requires
        st.dead is None,
    ensures
        st.half_closes() <==> st.local == Some(LocalSock::Tcp) && st.remote_eof
            && st.tcp_out.len() == 0 && !st.wr_shutdown && !st.reset,
        st.half_closes() ==> st.settled() == (StreamModel { wr_shutdown: true, ..st }),
        st.half_closes() ==> !st.settled().half_closes(),
        st.reset && st.tcp_out.len() == 0 ==> st.settled() == (StreamModel {
            dead: Some(CloseReason::ClosedByPeer),
            ..st
        }),
        !st.half_closes() && !(st.reset && st.tcp_out.len() == 0) ==> st.settled() == st,
{
}

/// A live TCP socket is read until its end, a live flow's own socket on the
/// host; neither while a frame waits, and nothing else ever.
pub proof fn law_reads(st: StreamModel, dir: Dir, pending_empty: bool)
    ensures
        st.reads(dir, pending_empty) == LocalRead::Tcp <==> st.dead is None && st.local == Some(
            LocalSock::Tcp,
        ) && !st.tcp_eof && pending_empty,
        st.reads(dir, pending_empty) == LocalRead::Udp <==> st.dead is None && (
        st.local matches Some(LocalSock::Udp { peer }) && true) && dir == Dir::In && pending_empty,
{
}

/// What is sent is counted, on the stream and on the tunnel: TCP data when it
/// is offered, as it is not lost, and a datagram only if Steam took it. TCP
/// data that Steam refused waits, and a datagram does not.
pub proof fn law_sent_counted(t: TunnelModel, i: int, f: Seq<u8>, n: u64, ok: bool)
    requires
        0 <= i < t.streams.len(),
        5 <= f.len() <= u64::MAX,
    ensures
        ({
            let r = t.on_tcp_sent(i, f, ok);
            let k = (f.len() - 5) as u64;
            let st = t.streams[i];
            &&& r.tx_bytes == t.tx_bytes.wrapping_add(k)
            &&& r.streams == t.streams.update(
                i,
                StreamModel { tx_bytes: st.tx_bytes.wrapping_add(k), ..st },
            )
            &&& r.pending == if ok {
                t.pending
            } else {
                t.pending.push(f)
            }
            &&& r == TunnelModel {
                tx_bytes: r.tx_bytes,
                streams: r.streams,
                pending: r.pending,
                ..t
            }
        }),
        ({
            let r = t.on_udp_sent(i, n, ok);
            let st = t.streams[i];
            &&& !ok ==> r == t
            &&& ok ==> r == TunnelModel {
                tx_bytes: t.tx_bytes.wrapping_add(n),
                streams: t.streams.update(
                    i,
                    StreamModel { tx_bytes: st.tx_bytes.wrapping_add(n), ..st },
                ),
                ..t
            }
        }),
{
}

/// The go-ahead opens the client's tunnel, and only it: any other message ends
/// it. All streams that waited are then known to the peer, in order, and what
/// they held back is on its way and counted.
pub proof fn law_go_ahead(t: TunnelModel, data: Seq<u8>, psk: Seq<char>, now: u64, i: int)
    requires
        t.state == ConnState::AwaitOk,
        t.dead is None,
    ensures
        ({
            let o = t.on_message(data, psk, now);
            let ok = data == seq![0x53u8, 0x54, 0x4b, 0x33];
            &&& ok <==> o.tunnel.state == ConnState::Active
            &&& !ok ==> o.action == ActionModel::Stop && o.tunnel.dead == Some(
                CloseReason::HandshakeRejected,
            )
            &&& ok ==> o.tunnel.dead is None && o.tunnel.streams.len() == t.streams.len()
                && o.action == ActionModel::Frames(crate::tunnel::all_opening_frames(t.streams))
            &&& ok && 0 <= i < t.streams.len() ==> {
                let st = t.streams[i];
                if !st.open_sent && st.dead is None {
                    o.tunnel.streams[i] == (StreamModel {
                        open_sent: true,
                        pre_buf: Seq::empty(),
                        tx_bytes: st.tx_bytes.wrapping_add(st.pre_buf.len() as u64),
                        ..st
                    })
                } else {
                    o.tunnel.streams[i] == st
                }
            }
        }),
{
    assert(crate::protocol::M_OK@ =~= seq![0x53u8, 0x54, 0x4b, 0x33]);
}

/// The opening of several streams is the opening of each, in order: its opening
/// frame, then all that it held back, then its end if that has come. A stream
/// that is dead or known to the peer adds nothing. The tunnel counts what is
/// sent with them.
pub proof fn law_openings(a: Seq<StreamModel>, st: StreamModel, tx: u64)
    ensures
        ({
            let waits = !st.open_sent && st.dead is None;
            let before = crate::tunnel::all_opening_frames(a);
            let after = crate::tunnel::all_opening_frames(a.push(st));
            let opening = crate::protocol::frame_bytes(F_OPEN, st.id, Seq::empty());
            let end = crate::protocol::frame_bytes(F_EOF, st.id, Seq::empty());
            &&& !waits ==> after == before
            &&& waits && st.pre_buf.len() == 0 && !st.tcp_eof ==> after == before.push(opening)
            &&& waits && st.pre_buf.len() == 0 && st.tcp_eof ==> after == before.push(
                opening,
            ).push(end)
            &&& waits && 0 < st.pre_buf.len() <= 16384 && !st.tcp_eof ==> after == before.push(
                opening,
            ).push(crate::protocol::frame_bytes(F_DATA, st.id, st.pre_buf))
            &&& crate::tunnel::tx_after_opening(tx, a.push(st)) == if waits {
                crate::tunnel::tx_after_opening(tx, a).wrapping_add(st.pre_buf.len() as u64)
            } else {
                crate::tunnel::tx_after_opening(tx, a)
            }
        }),
        crate::tunnel::all_opening_frames(Seq::empty()).len() == 0,
        crate::tunnel::tx_after_opening(tx, Seq::empty()) == tx,
{
    assert(a.push(st).drop_last() =~= a);
    let before = crate::tunnel::all_opening_frames(a);
    let opening = crate::protocol::frame_bytes(F_OPEN, st.id, Seq::empty());
    let end = crate::protocol::frame_bytes(F_EOF, st.id, Seq::empty());
    let after = crate::tunnel::all_opening_frames(a.push(st));
    if !st.open_sent && st.dead is None {
        if st.pre_buf.len() == 0 {
            assert(crate::stream::data_frames(
                st.id,
                crate::stream::chunks_of(st.pre_buf),
            ) =~= Seq::<Seq<u8>>::empty());
            if st.tcp_eof {
                assert(after =~= before.push(opening).push(end));
            } else {
                assert(after =~= before.push(opening));
            }
        } else if st.pre_buf.len() <= 16384 && !st.tcp_eof {
            let data = crate::protocol::frame_bytes(F_DATA, st.id, st.pre_buf);
            assert(crate::stream::data_frames(
                st.id,
                crate::stream::chunks_of(st.pre_buf),
            ) =~= seq![data]);
            assert(after =~= before.push(opening).push(data));
        }
    } else {
        assert(after =~= before);
    }
}

/// A client answers a greeting: with the proof of its key where one is
/// demanded, and without where none is, each with its protocol. It takes note
/// of the host's version, which the log tells if it is another than its own.
pub proof fn law_greeted(
    t: TunnelModel,
    required: bool,
    nonce: [u8; 32],
    version: Seq<u8>,
    psk: Seq<char>,
    now: u64,
)
    requires
        t.state == ConnState::AwaitHello,
        t.dead is None,
        required ==> psk.len() > 0,
    ensures
        ({
            let flag: u8 = if required {
                1
            } else {
                0
            };
            let o = t.on_message(
                seq![0x53u8, 0x54, 0x48, 0x33, flag] + nonce@ + version,
                psk,
                now,
            );
            let seen = crate::text::lossy_text(version);
            &&& o.action == ActionModel::Send(
                if required {
                    crate::protocol::auth_bytes(crate::auth::psk_mac_of(psk, nonce@)@, t.udp)
                } else {
                    crate::protocol::noauth_bytes(t.udp)
                },
            )
            &&& o.tunnel == TunnelModel {
                state: ConnState::AwaitOk,
                peer_version: seen,
                ..t
            }
            &&& o.log.len() == 0 <==> seen.len() == 0 || seen == "0.1.0"@
        }),
{
    crate::wire_laws::law_other_versions(
        if required {
            1
        } else {
            0
        },
        nonce,
        0,
        version,
    );
}

/// A message that is no greeting ends a client's tunnel, and a demand for a key
/// that the client has not does too.
pub proof fn law_not_greeted(t: TunnelModel, data: Seq<u8>, psk: Seq<char>, now: u64)
    requires
        t.state == ConnState::AwaitHello,
        t.dead is None,
        data.len() < 37 || data.take(4) != seq![0x53u8, 0x54, 0x48, 0x33],
    ensures
        t.on_message(data, psk, now).action == ActionModel::Stop,
        t.on_message(data, psk, now).tunnel.dead == Some(CloseReason::BadHello),
{
    crate::wire_laws::law_not_ours(data);
}

/// A host turns away what proves nothing: an answer whose proof does not hold,
/// an answer with a proof where no key is set, and what is no answer.
pub proof fn law_turned_away(
    t: TunnelModel,
    nonce: [u8; 32],
    mac: [u8; 32],
    proto: u8,
    version: Seq<u8>,
    data: Seq<u8>,
    psk: Seq<char>,
    now: u64,
)
    requires
        t.state == ConnState::AwaitAuth,
        t.dead is None,
        t.nonce == Some(nonce),
    ensures
        ({
            let o = t.on_message(
                seq![0x53u8, 0x54, 0x41, 0x33] + mac@ + seq![proto] + version,
                psk,
                now,
            );
            psk.len() == 0 || !crate::auth::mac_accepted(psk, nonce@, mac@) ==> o.action
                == ActionModel::Stop && o.tunnel.dead == Some(CloseReason::AuthFailed)
                && o.tunnel.state == ConnState::AwaitAuth && o.tunnel.peer_version
                == crate::text::lossy_text(version)
        }),
        data.len() < 5 ==> t.on_message(data, psk, now).action == ActionModel::Stop && t.on_message(
            data,
            psk,
            now,
        ).tunnel.dead == Some(CloseReason::AuthFailed),
{
    crate::wire_laws::law_other_versions(0, mac, proto, version);
    crate::wire_laws::law_not_ours(data);
}

/// The wordings of the reasons for which streams and tunnels end are all
/// different.
pub proof fn law_reasons_differ(a: CloseReason, b: CloseReason)
    ensures
        crate::stream::reason_text(a) == crate::stream::reason_text(b) <==> a == b,
{
    lemma_reason_number(a);
    lemma_reason_number(b);
}

spec fn reason_number(r: CloseReason) -> int {
    match r {
        CloseReason::AuthFailed => 0,
        CloseReason::BadFrame => 1,
        CloseReason::BadHello => 2,
        CloseReason::BufferOverflow => 3,
        CloseReason::ClosedByPeer => 4,
        CloseReason::ConnectionGone => 5,
        CloseReason::ConnectionProblem => 6,
        CloseReason::Finished => 7,
        CloseReason::FlowIdle => 8,
        CloseReason::HandshakeBufferOverflow => 9,
        CloseReason::HandshakeRejected => 10,
        CloseReason::HandshakeTimeout => 11,
        CloseReason::Idle => 12,
        CloseReason::LocalClosed => 13,
        CloseReason::MappingRemoved => 14,
        CloseReason::PeerDisconnected => 15,
        CloseReason::ProtocolMismatch => 16,
        CloseReason::PskRequired => 17,
        CloseReason::ReadError => 18,
        CloseReason::ShareRemoved => 19,
        CloseReason::WriteError => 20,
    }
}

/// A number that tells a wording from the others: by its length, and by a
/// character where the length is the same.
spec fn wording_number(s: Seq<char>) -> int {
    if s.len() == 11 {
        0
    } else if s.len() == 9 {
        if s[0] == 'b' {
            1
        } else {
            8
        }
    } else if s.len() == 8 {
        7
    } else if s.len() == 38 {
        3
    } else if s.len() == 14 {
        4
    } else if s.len() == 15 {
        if s[0] == 'c' {
            5
        } else {
            14
        }
    } else if s.len() == 18 {
        if s[0] == 'c' {
            6
        } else {
            10
        }
    } else if s.len() == 25 {
        9
    } else if s.len() == 17 {
        if s[0] == 'h' {
            11
        } else if s[1] == 'e' {
            15
        } else {
            16
        }
    } else if s.len() == 4 {
        12
    } else if s.len() == 19 {
        13
    } else if s.len() == 12 {
        17
    } else if s.len() == 23 {
        18
    } else if s.len() == 13 {
        19
    } else if s.len() == 24 {
        20
    } else {
        2
    }
}

proof fn lemma_reason_number(r: CloseReason)
    ensures
        wording_number(crate::stream::reason_text(r)) == reason_number(r),
{
    reveal_strlit("auth failed");
    reveal_strlit("bad frame");
    reveal_strlit("bad hello (version mismatch? both sides need the same steam-tunnel release)");
    reveal_strlit("local socket too slow, buffer overflow");
    reveal_strlit("closed by peer");
    reveal_strlit("connection gone");
    reveal_strlit("connection problem");
    reveal_strlit("finished");
    reveal_strlit("flow idle");
    reveal_strlit("handshake buffer overflow");
    reveal_strlit("handshake rejected");
    reveal_strlit("handshake timeout");
    reveal_strlit("idle");
    reveal_strlit("local socket closed");
    reveal_strlit("mapping removed");
    reveal_strlit("peer disconnected");
    reveal_strlit("protocol mismatch");
    reveal_strlit("psk required");
    reveal_strlit("local socket read error");
    reveal_strlit("share removed");
    reveal_strlit("local socket write error");
}


/// Data for a live TCP stream is put behind what waits for its socket, and
/// counted on the stream and on the tunnel; nothing else changes, and nothing
/// else is asked for.
pub proof fn law_tcp_data(
    t: TunnelModel,
    i: int,
    payload: Seq<u8>,
    psk: Seq<char>,
    now: u64,
)
    requires
        t.state == ConnState::Active,
        is_live(t, i),
        t.streams[i].local == Some(LocalSock::Tcp),
        t.streams[i].tcp_out.len() + payload.len() <= 67108864,
    ensures
        ({
            let st = t.streams[i];
            let o = t.on_message(
                crate::protocol::frame_bytes(F_DATA, st.id, payload),
                psk,
                now,
            );
            &&& o.action == ActionModel::Nothing
            &&& o.log.len() == 0
            &&& o.tunnel.streams == t.streams.update(
                i,
                StreamModel {
                    tcp_out: st.tcp_out + payload,
                    rx_bytes: st.rx_bytes.wrapping_add(payload.len() as u64),
                    last_activity: now,
                    ..st
                },
            )
            &&& o.tunnel == TunnelModel {
                streams: o.tunnel.streams,
                rx_bytes: t.rx_bytes.wrapping_add(payload.len() as u64),
                ..t
            }
        }),
{
    lemma_live(t, i);
    crate::protocol::law_frame_round_trip(F_DATA, t.streams[i].id, payload);
}

/// Frames for a stream that is dead, and data for one that is not there and
/// that does not open a flow, change nothing and ask for nothing.
pub proof fn law_late_frames(
    t: TunnelModel,
    ftype: u8,
    sid: u32,
    payload: Seq<u8>,
    psk: Seq<char>,
    now: u64,
)
    requires
        t.state == ConnState::Active,
        ftype == F_DATA || ftype == F_EOF || ftype == F_CLOSE,
        forall|k: int|
            0 <= k < t.streams.len() ==> (#[trigger] t.streams[k]).id != sid
                || t.streams[k].dead is Some,
        ftype == F_DATA && t.udp && t.dir == Dir::In ==> exists|k: int|
            0 <= k < t.streams.len() && (#[trigger] t.streams[k]).id == sid,
    ensures
        ({
            let o = t.on_message(crate::protocol::frame_bytes(ftype, sid, payload), psk, now);
            o.tunnel == t && o.action == ActionModel::Nothing && o.log.len() == 0
        }),
{
    crate::protocol::law_frame_round_trip(ftype, sid, payload);
    crate::lists::lemma_first_where(t.streams, crate::tunnel::live_with_id(sid));
    crate::lists::lemma_first_where(t.streams, crate::tunnel::with_id(sid));
    if ftype == F_DATA && t.udp && t.dir == Dir::In {
        let k = choose|k: int| 0 <= k < t.streams.len() && (#[trigger] t.streams[k]).id == sid;
        assert(crate::tunnel::with_id(sid)(t.streams[k]));
    }
}

/// What the log says of a handshake: where an accepted tunnel is forwarded to,
/// that one was refused and why, that a key is missing, that a tunnel is open;
/// and the versions, if they differ.
pub proof fn law_handshake_lines(
    t: TunnelModel,
    nonce: [u8; 32],
    version: Seq<u8>,
    psk: Seq<char>,
    now: u64,
)
    requires
        t.dead is None,
    ensures
        ({
            let tunnel = "Tunnel "@ + crate::text::decimal(t.id as nat);
            let seen = crate::text::lossy_text(version);
            let runs = tunnel + ": peer runs v"@ + seen + " (this side: v"@ + "0.1.0"@ + ")"@;
            let own: u8 = if t.udp {
                1
            } else {
                0
            };
            let other: u8 = if t.udp {
                0
            } else {
                1
            };
            let news = if seen.len() > 0 && seen != "0.1.0"@ {
                seq![runs]
            } else {
                Seq::<Seq<char>>::empty()
            };
            let ok = t.on_message(seq![0x53u8, 0x54, 0x4e, 0x33, own] + version, psk, now);
            let mismatch = t.on_message(seq![0x53u8, 0x54, 0x4e, 0x33, other] + version, psk, now);
            let demand = t.on_message(
                seq![0x53u8, 0x54, 0x48, 0x33, 1u8] + nonce@ + version,
                psk,
                now,
            );
            &&& t.state == ConnState::AwaitAuth && psk.len() == 0 ==> ok.log == news.push(
                tunnel + ": open, forwarding to "@ + t.target,
            ) && ok.tunnel == TunnelModel {
                state: ConnState::Active,
                peer_version: seen,
                ..t
            }
            &&& t.state == ConnState::AwaitAuth && psk.len() == 0 ==> mismatch.tunnel.dead == Some(
                CloseReason::ProtocolMismatch,
            ) && mismatch.log == news.push(
                tunnel + ": protocol mismatch — port "@ + crate::text::decimal(t.port as nat)
                    + " is "@ + if t.udp {
                    "udp"@
                } else {
                    "tcp"@
                } + " here"@,
            )
            &&& t.state == ConnState::AwaitAuth && psk.len() > 0 ==> ok.log == news.push(
                tunnel + ": auth failed, dropping"@,
            ) && ok.tunnel.dead == Some(CloseReason::AuthFailed)
            &&& t.state == ConnState::AwaitHello && psk.len() == 0 ==> demand.log == news.push(
                tunnel + ": host requires a pre-shared key, none configured"@,
            ) && demand.tunnel.dead == Some(CloseReason::PskRequired)
            &&& t.state == ConnState::AwaitOk ==> t.on_message(
                seq![0x53u8, 0x54, 0x4b, 0x33],
                psk,
                now,
            ).log == seq![tunnel + ": established"@]
        }),
{
    crate::wire_laws::law_other_versions(
        1,
        nonce,
        if t.udp {
            1
        } else {
            0
        },
        version,
    );
    crate::wire_laws::law_other_versions(
        1,
        nonce,
        if t.udp {
            0
        } else {
            1
        },
        version,
    );
    assert(crate::protocol::M_OK@ =~= seq![0x53u8, 0x54, 0x4b, 0x33]);
}

/// The peer is told of the end of a stream unless it closed the stream itself
/// or both sides had finished. A sweep logs a line for every dead stream, with
/// its ids and the reason, and sends a close frame for every one of which the
/// peer is told, each behind those of the streams before it.
pub proof fn law_sweep_tells(id: u64, a: Seq<StreamModel>, st: StreamModel)
    ensures
        st.notifies() <==> st.dead is Some && !st.reset && st.dead != Some(CloseReason::Finished),
        crate::tunnel::closing_log(id, a.push(st)) == match st.dead {
            Some(why) => crate::tunnel::closing_log(id, a).push(
                "Tunnel "@ + crate::text::decimal(id as nat) + ": stream "@ + crate::text::decimal(
                    st.id as nat,
                ) + " closed: "@ + crate::stream::reason_text(why),
            ),
            None => crate::tunnel::closing_log(id, a),
        },
        crate::tunnel::closing_frames(a.push(st)) == if st.dead is Some && !st.reset && st.dead
            != Some(CloseReason::Finished) {
            crate::tunnel::closing_frames(a).push(
                crate::protocol::frame_bytes(F_CLOSE, st.id, Seq::empty()),
            )
        } else {
            crate::tunnel::closing_frames(a)
        },
        crate::tunnel::closing_log(id, Seq::empty()).len() == 0,
        crate::tunnel::closing_frames(Seq::empty()).len() == 0,
{
    assert(a.push(st).drop_last() =~= a);
}

} // verus!
