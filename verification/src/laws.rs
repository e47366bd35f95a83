//! What holds of a tunnel as a whole: who gets in, and what arrives.
use vstd::prelude::*;

use crate::handshake::AnswerModel;
use crate::protocol::{F_CLOSE, F_DATA, F_EOF, F_OPEN, M_OK};
use crate::stream::{CloseReason, Dir, LocalSock, ReadEnd, StreamModel, WriteOutcome};
use crate::stream::{PRE_BUF_CAP, TCP_OUT_CAP};
use crate::tunnel::{ActionModel, ConnState, Health, TunnelModel};

verus! {

/// Two sides with the same key, or both without one, and the same protocol
/// come to an open tunnel in three messages: the client
/// answers the greeting, the host gives the go-ahead, and both are open and
/// alive.
pub proof fn law_same_key_connects(
    host: TunnelModel,
    client: TunnelModel,
    nonce: [u8; 32],
    psk: Seq<char>,
    now: u64,
)
    requires
        host.state == ConnState::AwaitAuth,
        host.nonce == Some(nonce),
        host.dead is None,
        client.state == ConnState::AwaitHello,
        client.dead is None,
        host.udp == client.udp,
    ensures
        ({
            let greeted = client.on_message(
                crate::protocol::hello_bytes(psk.len() > 0, nonce@),
                psk,
                now,
            );
            &&& greeted.action matches ActionModel::Send(answer) && {
                let judged = host.on_message(answer, psk, now);
                let opened = greeted.tunnel.on_message(M_OK@, psk, now);
                &&& judged.action == ActionModel::Send(M_OK@)
                &&& judged.tunnel.state == ConnState::Active
                &&& judged.tunnel.dead is None
                &&& opened.tunnel.state == ConnState::Active
                &&& opened.tunnel.dead is None
            }
        }),
{
    crate::handshake::law_hello_round_trip(psk.len() > 0, nonce);
    let mac = crate::auth::psk_mac_of(psk, nonce@);
    crate::handshake::law_answer_round_trip(mac, client.udp);
    crate::auth::law_right_key_accepted(psk, nonce@);
}

/// A host opens a tunnel on a message if and only if the message is an answer
/// for the protocol of the share, with a proof that holds for the challenge
/// where a key is set, and without a proof where none is. On any other message
/// the tunnel ends.
pub proof fn law_host_admits(host: TunnelModel, data: Seq<u8>, psk: Seq<char>, now: u64)
    requires
        host.state == ConnState::AwaitAuth,
        host.dead is None,
    ensures
        ({
            let o = host.on_message(data, psk, now);
            let proto = crate::protocol::proto_byte(host.udp);
            let admitted = match crate::handshake::answer_of(data) {
                AnswerModel::Auth { mac, proto: p, version } => psk.len() > 0 && p == proto
                    && host.nonce is Some && crate::auth::mac_accepted(
                    psk,
                    host.nonce->0@,
                    mac,
                ),
                AnswerModel::NoAuth { proto: p, version } => psk.len() == 0 && p == proto,
                AnswerModel::Other => false,
            };
            &&& admitted <==> o.tunnel.state == ConnState::Active
            &&& admitted <==> o.tunnel.dead is None
            &&& admitted <==> o.action == ActionModel::Send(M_OK@)
            &&& !admitted ==> o.action == ActionModel::Stop
        }),
{
}

/// A client without a key does not answer a host that demands one, and a host
/// with a key turns down an answer without a proof.
pub proof fn law_missing_key_refused(
    host: TunnelModel,
    client: TunnelModel,
    nonce: [u8; 32],
    psk: Seq<char>,
    now: u64,
)
    requires
        host.state == ConnState::AwaitAuth,
        host.dead is None,
        client.state == ConnState::AwaitHello,
        client.dead is None,
        psk.len() > 0,
    ensures
        ({
            let greeted = client.on_message(
                crate::protocol::hello_bytes(true, nonce@),
                Seq::empty(),
                now,
            );
            greeted.action == ActionModel::Stop && greeted.tunnel.dead == Some(
                CloseReason::PskRequired,
            )
        }),
        ({
            let judged = host.on_message(
                crate::protocol::noauth_bytes(client.udp),
                psk,
                now,
            );
            judged.action == ActionModel::Stop && judged.tunnel.dead == Some(
                CloseReason::AuthFailed,
            )
        }),
{
    crate::handshake::law_hello_round_trip(true, nonce);
    crate::handshake::law_answer_round_trip(nonce, client.udp);
}

/// The key does not travel: what a client sends depends on its key only
/// through the proof, and what a host sends not at all. Two keys that prove
/// the same lead to the same messages, and a host only ever gives the
/// go-ahead.
pub proof fn law_key_not_sent(
    t: TunnelModel,
    data: Seq<u8>,
    key: Seq<char>,
    other: Seq<char>,
    now: u64,
)
    requires
        key.len() > 0,
        other.len() > 0,
        crate::handshake::hello_of(data) matches Some(h) ==> crate::auth::psk_mac_of(key, h.nonce)
            == crate::auth::psk_mac_of(other, h.nonce),
    ensures
        t.state != ConnState::AwaitAuth ==> t.on_message(data, key, now) == t.on_message(
            data,
            other,
            now,
        ),
        t.state == ConnState::AwaitAuth ==> (t.on_message(
            data,
            key,
            now,
        ).action matches ActionModel::Send(m) ==> m == M_OK@),
{
}

/// Sides that differ in protocol do not get an open tunnel, whatever the key.
pub proof fn law_other_protocol_refused(
    host: TunnelModel,
    nonce: [u8; 32],
    psk: Seq<char>,
    now: u64,
)
    requires
        host.state == ConnState::AwaitAuth,
        host.nonce == Some(nonce),
        host.dead is None,
    ensures
        ({
            let mac = crate::auth::psk_mac_of(psk, nonce@);
            let answer = if psk.len() > 0 {
                crate::protocol::auth_bytes(mac@, !host.udp)
            } else {
                crate::protocol::noauth_bytes(!host.udp)
            };
            let judged = host.on_message(answer, psk, now);
            judged.action == ActionModel::Stop && judged.tunnel.dead == Some(
                CloseReason::ProtocolMismatch,
            )
        }),
{
    let mac = crate::auth::psk_mac_of(psk, nonce@);
    crate::handshake::law_answer_round_trip(mac, !host.udp);
    crate::auth::law_right_key_accepted(psk, nonce@);
}

/// Until a tunnel is open no message connects to a local service, hands a
/// datagram to one, or puts a byte into a stream.
pub proof fn law_nothing_passes_unopened(t: TunnelModel, data: Seq<u8>, psk: Seq<char>, now: u64)
    requires
        t.state != ConnState::Active,
    ensures
        ({
            let o = t.on_message(data, psk, now);
            &&& !(o.action is Open) && !(o.action is OpenFlow) && !(o.action is Datagram)
            &&& o.tunnel.streams.len() == t.streams.len()
            &&& forall|i: int|
                0 <= i < t.streams.len() ==> (#[trigger] o.tunnel.streams[i]).tcp_out
                    == t.streams[i].tcp_out
            &&& o.tunnel.rx_bytes == t.rx_bytes
        }),
{
}

/// On the client no message opens a stream: only the host connects to a local
/// service on the peer's behalf.
pub proof fn law_client_opens_nothing(t: TunnelModel, data: Seq<u8>, psk: Seq<char>, now: u64)
    requires
        t.dir == Dir::Out,
    ensures
        ({
            let o = t.on_message(data, psk, now);
            !(o.action is Open) && !(o.action is OpenFlow) && o.tunnel.streams.len()
                == t.streams.len()
        }),
{
    if let Some(f) = crate::protocol::frame_of(data) {
        crate::lists::lemma_first_where(t.streams, crate::tunnel::live_with_id(f.sid));
    }
}

/// The reason for which a tunnel ended never changes.
pub proof fn law_first_reason_stays(
    t: TunnelModel,
    why: CloseReason,
    data: Seq<u8>,
    psk: Seq<char>,
    health: Health,
    now: u64,
)
    requires
        t.dead == Some(why),
    ensures
        t.on_message(data, psk, now).tunnel.dead == Some(why),
        t.aged(now).dead == Some(why),
        t.checked(health).dead == Some(why),
        forall|other: CloseReason| #[trigger] t.ended(other).dead == Some(why),
{
}

/// Whether `b` is a later state of the tunnel `a`: what identifies it and its
/// challenge are the same, and once it has ended, it stays ended for the same
/// reason.
pub open spec fn continues(a: TunnelModel, b: TunnelModel) -> bool {
    &&& a.id == b.id
    &&& a.dir == b.dir
    &&& a.peer == b.peer
    &&& a.port == b.port
    &&& a.udp == b.udp
    &&& a.created == b.created
    &&& a.nonce == b.nonce
    &&& a.target == b.target
    &&& a.dead is Some ==> b.dead == a.dead
}

/// Whatever a tunnel meets, it stays the same tunnel.
pub proof fn law_tunnel_continues(
    t: TunnelModel,
    data: Seq<u8>,
    psk: Seq<char>,
    sid: u32,
    result: Result<(), Seq<char>>,
    health: Health,
    now: u64,
)
    ensures
        continues(t, t.on_message(data, psk, now).tunnel),
        continues(t, t.on_opened(sid, result, now).tunnel),
        continues(t, t.on_flow_opened(sid, result is Ok, data, now).tunnel),
        continues(t, t.swept()),
        continues(t, t.aged(now)),
        continues(t, t.checked(health)),
        forall|m: u64, local: LocalSock| #[trigger]
            continues(t, t.with_local_stream(m, local, now)),
{
}

/// The buffers of a stream are within their limits.
pub open spec fn buffers_bounded(st: StreamModel) -> bool {
    st.tcp_out.len() <= TCP_OUT_CAP && st.pre_buf.len() <= PRE_BUF_CAP
}

/// Whatever happens on a stream, its buffers stay within their limits.
pub proof fn law_buffers_stay_bounded(
    st: StreamModel,
    data: Seq<u8>,
    outcome: WriteOutcome,
    end: ReadEnd,
    udp: bool,
    now: u64,
)
    requires
        buffers_bounded(st),
        outcome matches WriteOutcome::Wrote(n) ==> n <= st.tcp_out.len(),
    ensures
        buffers_bounded(StreamModel::fresh(st.id, st.mapping_id, st.local, now)),
        buffers_bounded(st.delivered(data, now)),
        buffers_bounded(st.written(outcome)),
        buffers_bounded(st.settled()),
        buffers_bounded(st.held_back(data)),
        buffers_bounded(st.read_ended(end)),
        buffers_bounded(st.concluded(udp, now)),
        buffers_bounded(st.activated()),
{
}

/// A TCP stream that both sides finished and that is delivered ends, and the
/// peer is sent nothing: it comes to the same end by itself.
pub proof fn law_clean_end_is_silent(st: StreamModel, now: u64)
    requires
        st.dead is None,
        !st.reset,
        st.tcp_eof,
        st.remote_eof,
        st.tcp_out.len() == 0,
    ensures
        st.concluded(false, now).dead == Some(CloseReason::Finished),
        !st.concluded(false, now).notifies(),
{
}

/// What the peer sent before it closed a stream is still delivered: the
/// stream lives until its buffer is empty, and ends then without a word.
pub proof fn law_reset_delivers_first(st: StreamModel)
    requires
        st.dead is None,
        st.reset,
    ensures
        st.tcp_out.len() > 0 ==> st.settled() == st,
        st.tcp_out.len() == 0 ==> st.settled().dead == Some(CloseReason::ClosedByPeer)
            && !st.settled().notifies(),
{
}

/// After a sweep every stream is alive, every live stream is still there, and
/// the peer was told of exactly the dead streams that it cannot know of.
pub proof fn law_sweep(t: TunnelModel)
    ensures
        forall|st: StreamModel| #[trigger]
            t.swept().streams.contains(st) <==> t.streams.contains(st) && st.dead is None,
        forall|f: Seq<u8>| #[trigger]
            crate::tunnel::closing_frames(t.streams).contains(f) <==> exists|i: int|
                0 <= i < t.streams.len() && (#[trigger] t.streams[i]).notifies() && f
                    == crate::protocol::frame_bytes(F_CLOSE, t.streams[i].id, Seq::empty()),
{
    crate::lists::lemma_kept(t.streams, crate::tunnel::alive());
    lemma_closing_frames(t.streams);
}

/// A sweep logs one line for each dead stream, with its id and why it ended,
/// and sends one close frame for each that the peer is told of, both in the
/// order of the streams.
pub proof fn law_sweep_accounts(id: u64, ss: Seq<StreamModel>)
    ensures
        crate::tunnel::closing_log(id, ss) == crate::lists::kept(
            ss,
            crate::tunnel::has_died(),
        ).map_values(crate::tunnel::closing_line(id)),
        crate::tunnel::closing_frames(ss) == crate::lists::kept(
            ss,
            crate::tunnel::is_told(),
        ).map_values(crate::tunnel::closing_frame()),
    decreases ss.len(),
{
    let line = crate::tunnel::closing_line(id);
    let frame = crate::tunnel::closing_frame();
    let dead = crate::lists::kept(ss, crate::tunnel::has_died());
    let told = crate::lists::kept(ss, crate::tunnel::is_told());
    if ss.len() > 0 {
        let init = ss.drop_last();
        law_sweep_accounts(id, init);
        let d = crate::lists::kept(init, crate::tunnel::has_died());
        let k = crate::lists::kept(init, crate::tunnel::is_told());
        assert(d.push(ss.last()).map_values(line) =~= d.map_values(line).push(line(ss.last())));
        assert(k.push(ss.last()).map_values(frame) =~= k.map_values(frame).push(frame(ss.last())));
    }
    assert(crate::tunnel::closing_log(id, ss) =~= dead.map_values(line));
    assert(crate::tunnel::closing_frames(ss) =~= told.map_values(frame));
}

proof fn lemma_closing_frames(ss: Seq<StreamModel>)
    ensures
        forall|f: Seq<u8>| #[trigger]
            crate::tunnel::closing_frames(ss).contains(f) <==> exists|i: int|
                0 <= i < ss.len() && (#[trigger] ss[i]).notifies() && f
                    == crate::protocol::frame_bytes(F_CLOSE, ss[i].id, Seq::empty()),
    decreases ss.len(),
{
    let all = crate::tunnel::closing_frames(ss);
    if ss.len() > 0 {
        let init = ss.drop_last();
        lemma_closing_frames(init);
        let before = crate::tunnel::closing_frames(init);
        let own = crate::protocol::frame_bytes(F_CLOSE, ss.last().id, Seq::empty());
        assert forall|f: Seq<u8>| #[trigger] all.contains(f) <==> exists|i: int|
            0 <= i < ss.len() && (#[trigger] ss[i]).notifies() && f
                == crate::protocol::frame_bytes(F_CLOSE, ss[i].id, Seq::empty()) by {
            if all.contains(f) {
                let k = choose|k: int| 0 <= k < all.len() && all[k] == f;
                if k < before.len() {
                    assert(before[k] == f);
                    assert(before.contains(f));
                    let i = choose|i: int|
                        0 <= i < init.len() && (#[trigger] init[i]).notifies() && f
                            == crate::protocol::frame_bytes(F_CLOSE, init[i].id, Seq::empty());
                    assert(ss[i] == init[i]);
                } else {
                    assert(ss[ss.len() - 1].notifies());
                }
            }
            if exists|i: int|
                0 <= i < ss.len() && (#[trigger] ss[i]).notifies() && f
                    == crate::protocol::frame_bytes(F_CLOSE, ss[i].id, Seq::empty()) {
                let i = choose|i: int|
                    0 <= i < ss.len() && (#[trigger] ss[i]).notifies() && f
                        == crate::protocol::frame_bytes(F_CLOSE, ss[i].id, Seq::empty());
                if i < init.len() {
                    assert(init[i].notifies());
                    assert(before.contains(f));
                    let k = choose|k: int| 0 <= k < before.len() && before[k] == f;
                    assert(all[k] == f);
                } else {
                    assert(all[before.len() as int] == f);
                }
            }
        }
    }
}

/// A tunnel after messages arrived.
pub open spec fn after_messages(t: TunnelModel, ms: Seq<Seq<u8>>, psk: Seq<char>, now: u64) ->
    TunnelModel
    decreases ms.len(),
{
    if ms.len() == 0 {
        t
    } else {
        after_messages(t, ms.drop_last(), psk, now).on_message(ms.last(), psk, now).tunnel
    }
}

/// Pieces put together.
pub open spec fn joined(parts: Seq<Seq<u8>>) -> Seq<u8>
    decreases parts.len(),
{
    if parts.len() == 0 {
        Seq::empty()
    } else {
        joined(parts.drop_last()) + parts.last()
    }
}

/// Whether data for the stream at `i` finds it, a TCP stream, on an open
/// tunnel.
pub open spec fn takes_data(t: TunnelModel, i: int) -> bool {
    &&& t.state == ConnState::Active
    &&& 0 <= i < t.streams.len()
    &&& crate::lists::first_where(t.streams, crate::tunnel::live_with_id(t.streams[i].id))
        == Some(i)
    &&& t.streams[i].local == Some(LocalSock::Tcp)
}

/// A stream with bytes put behind those that wait, and its counters.
pub open spec fn with_bytes(st: StreamModel, bytes: Seq<u8>, rx_bytes: u64, last: u64) ->
    StreamModel {
    StreamModel { tcp_out: st.tcp_out + bytes, rx_bytes, last_activity: last, ..st }
}

proof fn lemma_data_frame(t: TunnelModel, i: int, payload: Seq<u8>, psk: Seq<char>, now: u64)
    requires
        takes_data(t, i),
        t.streams[i].tcp_out.len() + payload.len() <= TCP_OUT_CAP,
    ensures
        ({
            let st = t.streams[i];
            let f = crate::protocol::frame_bytes(F_DATA, st.id, payload);
            let r = t.on_message(f, psk, now).tunnel;
            &&& r == TunnelModel {
                rx_bytes: r.rx_bytes,
                ..t.with_stream_at(i, with_bytes(st, payload, r.streams[i].rx_bytes, now))
            }
            &&& takes_data(r, i)
        }),
{
    let st = t.streams[i];
    let f = crate::protocol::frame_bytes(F_DATA, st.id, payload);
    let p = crate::tunnel::live_with_id(st.id);
    crate::protocol::law_frame_round_trip(F_DATA, st.id, payload);
    crate::lists::lemma_first_where(t.streams, p);
    crate::lists::lemma_first_where(t.streams, crate::tunnel::with_id(st.id));
    assert(t.has_stream(st.id)) by {
        if !t.has_stream(st.id) {
            assert(!crate::tunnel::with_id(st.id)(t.streams[i]));
        }
    }
    let r = t.on_message(f, psk, now).tunnel;
    assert(r == t.on_data(st.id, payload, now).tunnel);
    assert(r.streams[i] == st.delivered(payload, now));
    assert forall|j: int| 0 <= j < i implies !p(#[trigger] r.streams[j]) by {
        assert(r.streams[j] == t.streams[j]);
    }
    crate::lists::lemma_first_where_is(r.streams, p, i);
}

/// Data frames of a TCP stream that arrive on an open tunnel put their
/// payloads, in order and without a gap, behind what already waits for the
/// local socket, as long as the buffer holds them. Nothing else changes but
/// the counters: not the other streams, nor what is to be sent.
pub proof fn law_data_arrives(
    t: TunnelModel,
    i: int,
    payloads: Seq<Seq<u8>>,
    psk: Seq<char>,
    now: u64,
)
    requires
        takes_data(t, i),
        t.streams[i].tcp_out.len() + joined(payloads).len() <= TCP_OUT_CAP,
    ensures
        ({
            let st = t.streams[i];
            let r = after_messages(
                t,
                crate::stream::data_frames(st.id, payloads),
                psk,
                now,
            );
            &&& r == TunnelModel {
                rx_bytes: r.rx_bytes,
                ..t.with_stream_at(
                    i,
                    with_bytes(
                        st,
                        joined(payloads),
                        r.streams[i].rx_bytes,
                        r.streams[i].last_activity,
                    ),
                )
            }
            &&& takes_data(r, i)
        }),
    decreases payloads.len(),
{
    let st = t.streams[i];
    let fs = crate::stream::data_frames(st.id, payloads);
    if payloads.len() == 0 {
        assert(t.streams.update(i, st) =~= t.streams);
        assert(st.tcp_out + joined(payloads) =~= st.tcp_out);
    } else {
        let init = payloads.drop_last();
        let last = payloads.last();
        law_data_arrives(t, i, init, psk, now);
        assert(fs.drop_last() =~= crate::stream::data_frames(st.id, init));
        assert(fs.last() == crate::protocol::frame_bytes(F_DATA, st.id, last));
        let mid = after_messages(t, fs.drop_last(), psk, now);
        lemma_data_frame(mid, i, last, psk, now);
        let r = after_messages(t, fs, psk, now);
        assert(st.tcp_out + joined(init) + last =~= st.tcp_out + joined(payloads));
        assert(r.streams =~= t.streams.update(i, r.streams[i]));
    }
}

proof fn lemma_joined_first(a: Seq<u8>, rest: Seq<Seq<u8>>)
    ensures
        joined(seq![a] + rest) == a + joined(rest),
    decreases rest.len(),
{
    let all = seq![a] + rest;
    if rest.len() == 0 {
        assert(all.drop_last() =~= Seq::empty());
        assert(joined(all.drop_last()) =~= Seq::empty());
        assert(all.last() == a);
        assert(joined(all) =~= a + joined(rest));
    } else {
        lemma_joined_first(a, rest.drop_last());
        assert(all.drop_last() =~= seq![a] + rest.drop_last());
        assert(all.last() == rest.last());
        assert(joined(all) =~= a + joined(rest));
    }
}

/// What was held back is sent whole: the pieces put together are the bytes,
/// and each piece is one that a single frame carries.
pub proof fn law_chunks_whole(buf: Seq<u8>)
    ensures
        joined(crate::stream::chunks_of(buf)) == buf,
        forall|k: int|
            0 <= k < crate::stream::chunks_of(buf).len() ==> 0 < (
            #[trigger] crate::stream::chunks_of(buf)[k]).len() <= crate::protocol::CHUNK,
    decreases buf.len(),
{
    let all = crate::stream::chunks_of(buf);
    if buf.len() == 0 {
        assert(joined(all) =~= buf);
    } else if buf.len() <= crate::protocol::CHUNK {
        assert(all.drop_last() =~= Seq::empty());
        assert(joined(all.drop_last()) =~= Seq::empty());
        assert(joined(all) =~= buf);
    } else {
        let head = buf.take(crate::protocol::CHUNK as int);
        let tail = buf.skip(crate::protocol::CHUNK as int);
        law_chunks_whole(tail);
        lemma_joined_first(head, crate::stream::chunks_of(tail));
        assert(head + tail =~= buf);
        assert forall|k: int| 0 <= k < all.len() implies 0 < (#[trigger] all[k]).len()
            <= crate::protocol::CHUNK by {
            if k > 0 {
                assert(all[k] == crate::stream::chunks_of(tail)[k - 1]);
            }
        }
    }
}

/// What a local program sent before its tunnel was open arrives whole: the
/// first of the frames that open the stream makes the host connect to its
/// target, and the rest put the bytes that were held back, and nothing else,
/// before the local service, with the end after them if there was one.
pub proof fn law_held_back_arrives(
    host: TunnelModel,
    st: StreamModel,
    psk: Seq<char>,
    now: u64,
)
    requires
        host.state == ConnState::Active,
        host.dir == Dir::In,
        !host.udp,
        !host.has_stream(st.id),
        st.waits(),
        buffers_bounded(st),
    ensures
        ({
            let fs = st.opening_frames();
            let asked = host.on_message(fs[0], psk, now);
            let connected = asked.tunnel.on_opened(st.id, Ok(()), now).tunnel;
            let r = after_messages(connected, fs.skip(1), psk, now);
            &&& asked.action == ActionModel::Open { sid: st.id }
            &&& r.streams.len() == host.streams.len() + 1
            &&& r.streams.last().id == st.id
            &&& r.streams.last().dead is None
            &&& r.streams.last().tcp_out == st.pre_buf
            &&& r.streams.last().remote_eof == st.tcp_eof
        }),
{
    let fs = st.opening_frames();
    let chunks = crate::stream::chunks_of(st.pre_buf);
    let data = crate::stream::data_frames(st.id, chunks);
    let eof = crate::protocol::frame_bytes(F_EOF, st.id, Seq::empty());
    crate::protocol::law_frame_round_trip(F_OPEN, st.id, Seq::empty());
    crate::protocol::law_frame_round_trip(F_EOF, st.id, Seq::empty());
    law_chunks_whole(st.pre_buf);
    let h = host.on_opened(st.id, Ok(()), now).tunnel;
    let i = host.streams.len() as int;
    let p = crate::tunnel::live_with_id(st.id);
    crate::lists::lemma_first_where(host.streams, crate::tunnel::with_id(st.id));
    assert forall|j: int| 0 <= j < i implies !p(#[trigger] h.streams[j]) by {
        assert(h.streams[j] == host.streams[j]);
        assert(!crate::tunnel::with_id(st.id)(host.streams[j]));
    }
    crate::lists::lemma_first_where_is(h.streams, p, i);
    law_data_arrives(h, i, chunks, psk, now);
    let r = after_messages(h, data, psk, now);
    assert(Seq::<u8>::empty() + st.pre_buf =~= st.pre_buf);
    assert(r.streams[i].tcp_out =~= st.pre_buf);
    if st.tcp_eof {
        assert(fs.skip(1) =~= data.push(eof));
        assert(data.push(eof).drop_last() =~= data);
        assert forall|j: int| 0 <= j < i implies !p(#[trigger] r.streams[j]) by {
            assert(r.streams[j] == h.streams[j]);
        }
        crate::lists::lemma_first_where_is(r.streams, p, i);
    } else {
        assert(fs.skip(1) =~= data);
    }
}

/// Reliable frames reach Steam in the order in which they were sent, however
/// often Steam refuses: `wire` being what it took so far, what it takes and
/// what waits is together always what was sent, in order. A frame sent comes
/// behind all of it, and a retry changes nothing about it.
pub proof fn law_reliable_order(t: TunnelModel, wire: Seq<Seq<u8>>, f: Seq<u8>, accepted: bool)
    ensures
        wire + t.send_takes(f, accepted) + t.after_send(f, accepted).pending == (wire
            + t.pending).push(f),
        wire + t.retry_takes(accepted) + t.after_retry(accepted).pending == wire + t.pending,
{
    assert(wire + t.send_takes(f, accepted) + t.after_send(f, accepted).pending =~= (wire
        + t.pending).push(f));
    assert(wire + t.retry_takes(accepted) + t.after_retry(accepted).pending =~= wire
        + t.pending);
}

} // verus!
