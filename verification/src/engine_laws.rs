//! What commands, invitations and connections come to, in terms of what they
//! name.
use vstd::prelude::*;

use crate::engine::{EngineModel, MappingModel};
use crate::protocol::F_OPEN;
use crate::state::{InviteModel, PortSpec, ShareRowModel};
use crate::stream::{CloseReason, Dir, FlowAddr, LocalSock, StreamModel};
use crate::tunnel::{ActionModel, ConnState, TunnelModel};

verus! {

/// What is shared is what was asked for: the port, the protocol and, if one is
/// named, the target; without one the same port of this machine. It comes
/// behind the other shares, which stay.
pub proof fn law_shared(e: EngineModel, port: u16, udp: bool, target: Option<Seq<char>>)
    ensures
        e.share_plan(port, udp, target).share matches Some(s) ==> {
            &&& s.port == port
            &&& s.udp == udp
            &&& target matches Some(t) ==> s.target == t
            &&& target is None ==> s.target == "127.0.0.1:"@ + crate::text::decimal(port as nat)
            &&& e.with_share(s).shares.last() == s
            &&& e.with_share(s).shares.drop_last() == e.shares
            &&& e.with_share(s) == (EngineModel { shares: e.with_share(s).shares, ..e })
        },
        (forall|i: int| 0 <= i < e.shares.len() ==> (#[trigger] e.shares[i]).port != port)
            ==> e.share_plan(port, udp, target).share is Some && e.share_plan(
            port,
            udp,
            target,
        ).log.len() == 0,
{
    crate::lists::lemma_first_where(e.shares, crate::engine::on_port(port));
    if let Some(s) = e.share_plan(port, udp, target).share {
        assert(e.with_share(s).shares.drop_last() =~= e.shares);
    }
}

/// A port that is shared is not shared again; if it is shared under the other
/// protocol, that is logged.
pub proof fn law_shared_once(
    e: EngineModel,
    port: u16,
    udp: bool,
    target: Option<Seq<char>>,
    i: int,
)
    requires
        crate::engine::ports_distinct(e.shares),
        0 <= i < e.shares.len(),
        e.shares[i].port == port,
    ensures
        e.share_plan(port, udp, target).share is None,
        e.shares[i].udp == udp <==> e.share_plan(port, udp, target).log.len() == 0,
        e.share_plan(port, udp, target).log.len() <= 1,
{
    let p = crate::engine::on_port(port);
    crate::lists::lemma_first_where(e.shares, p);
    assert(p(e.shares[i]));
    let k = crate::lists::first_where(e.shares, p)->0;
    if k != i {
        assert(e.shares[k].port == e.shares[i].port);
    }
}

/// A peer that connects on a share gets a tunnel of that share: with its port,
/// its protocol and its target, and with the challenge that it was greeted
/// with. It is new, alive and not open yet, and nothing else changes.
pub proof fn law_incoming(
    e: EngineModel,
    share: ShareRowModel,
    peer: u64,
    nonce: [u8; 32],
    now: u64,
)
    ensures
        ({
            let r = e.with_incoming(share, peer, nonce, now);
            let t = r.tunnels.last();
            &&& r.tunnels.drop_last() == e.tunnels
            &&& r == EngineModel { tunnels: r.tunnels, next_id: r.next_id, ..e }
            &&& t.id == e.next_id
            &&& t.dir == Dir::In
            &&& t.peer == peer
            &&& t.port == share.port
            &&& t.udp == share.udp
            &&& t.target == share.target
            &&& t.nonce == Some(nonce)
            &&& t.state == ConnState::AwaitAuth
            &&& t.dead is None
            &&& t.created == now
            &&& t.streams.len() == 0 && t.pending.len() == 0
            &&& t.tx_bytes == 0 && t.rx_bytes == 0 && t.streams_served == 0
        }),
{
    let r = e.with_incoming(share, peer, nonce, now);
    assert(r.tunnels.drop_last() =~= e.tunnels);
}

/// From sharing a port to the target: every stream that a peer opens on a
/// tunnel of a share is connected to the address that the port was shared with,
/// whatever happened on the tunnel before, and the log says so.
pub proof fn law_streams_reach_target(
    e: EngineModel,
    port: u16,
    udp: bool,
    target: Seq<char>,
    peer: u64,
    nonce: [u8; 32],
    t: TunnelModel,
    sid: u32,
    psk: Seq<char>,
    now: u64,
)
    requires
        e.share_plan(port, udp, Some(target)).share is Some,
        ({
            let s = e.share_plan(port, udp, Some(target)).share->0;
            crate::laws::continues(e.with_incoming(s, peer, nonce, now).tunnels.last(), t)
        }),
        t.state == ConnState::Active,
        forall|i: int| 0 <= i < t.streams.len() ==> (#[trigger] t.streams[i]).id != sid,
    ensures
        t.target == target,
        ({
            let o = t.on_message(
                crate::protocol::frame_bytes(F_OPEN, sid, Seq::empty()),
                psk,
                now,
            );
            &&& o.action == ActionModel::Open { sid }
            &&& o.tunnel == t
            &&& o.tunnel.on_opened(sid, Ok(()), now).log == seq![
                "Tunnel "@ + crate::text::decimal(t.id as nat) + ": stream "@
                    + crate::text::decimal(sid as nat) + " -> "@ + target + " open"@,
            ]
        }),
{
    law_shared(e, port, udp, Some(target));
    crate::protocol::law_frame_round_trip(F_OPEN, sid, Seq::empty());
    crate::lists::lemma_first_where(t.streams, crate::tunnel::with_id(sid));
}

/// Ending a share removes exactly the shares of that port and protocol, and
/// ends exactly the tunnels that came in on them, for that reason; nothing else
/// changes.
pub proof fn law_unshared(e: EngineModel, port: u16, udp: bool, s: ShareRowModel, i: int)
    ensures
        e.unshared(port, udp).shares.contains(s) <==> e.shares.contains(s) && !(s.port == port
            && s.udp == udp),
        e.unshared(port, udp) == (EngineModel {
            shares: e.unshared(port, udp).shares,
            tunnels: e.unshared(port, udp).tunnels,
            ..e
        }),
        e.unshared(port, udp).tunnels.len() == e.tunnels.len(),
        0 <= i < e.tunnels.len() ==> {
            let t = e.tunnels[i];
            let u = e.unshared(port, udp).tunnels[i];
            if t.dir == Dir::In && t.port == port && t.udp == udp && t.dead is None {
                u == (TunnelModel { dead: Some(CloseReason::ShareRemoved), ..t })
            } else {
                u == t
            }
        },
{
    crate::lists::lemma_kept(e.shares, crate::engine::not_shared_as(port, udp));
}

/// A mapping is what was asked for: the peer and its port under the local port,
/// with the protocol. It comes behind the others, which stay; a TCP mapping is
/// bound by then, a UDP mapping not yet, but may be at once.
pub proof fn law_mapped(
    e: EngineModel,
    peer: u64,
    name: Seq<char>,
    remote_port: u16,
    local_port: u16,
    udp: bool,
    now: u64,
)
    ensures
        ({
            let r = e.with_mapping(peer, name, remote_port, local_port, udp, now);
            let m = r.mappings.last();
            let n = r.mappings.len() - 1;
            &&& r.mappings.drop_last() == e.mappings
            &&& r == EngineModel { mappings: r.mappings, next_id: r.next_id, ..e }
            &&& m.id == e.next_id
            &&& m.peer == peer
            &&& m.peer_name == name
            &&& m.remote_port == remote_port
            &&& m.local_port == local_port
            &&& m.udp == udp
            &&& m.bound == !udp
            &&& r.bind_due(n, now) <==> udp
            &&& !r.route_due(n, now)
        }),
{
    let r = e.with_mapping(peer, name, remote_port, local_port, udp, now);
    assert(r.mappings.drop_last() =~= e.mappings);
}

/// Removing a mapping removes exactly it, and ends exactly its streams, for
/// that reason; nothing else changes.
pub proof fn law_unmapped(e: EngineModel, id: u64, m: MappingModel, i: int, k: int)
    ensures
        e.unmapped(id).mappings.contains(m) <==> e.mappings.contains(m) && m.id != id,
        e.unmapped(id) == (EngineModel {
            mappings: e.unmapped(id).mappings,
            tunnels: e.unmapped(id).tunnels,
            ..e
        }),
        e.unmapped(id).tunnels.len() == e.tunnels.len(),
        0 <= i < e.tunnels.len() ==> {
            let t = e.tunnels[i];
            let u = e.unmapped(id).tunnels[i];
            &&& u == (TunnelModel { streams: u.streams, ..t })
            &&& u.streams.len() == t.streams.len()
            &&& 0 <= k < t.streams.len() ==> if t.streams[k].mapping_id == Some(id)
                && t.streams[k].dead is None {
                u.streams[k] == (StreamModel {
                    dead: Some(CloseReason::MappingRemoved),
                    ..t.streams[k]
                })
            } else {
                u.streams[k] == t.streams[k]
            }
        },
{
    crate::lists::lemma_kept(e.mappings, crate::engine::other_mapping(id));
}

/// What is kept of shares, mappings and invitations stays in its order.
pub proof fn law_removal_keeps_order(
    e: EngineModel,
    a: Seq<ShareRowModel>,
    b: Seq<ShareRowModel>,
    x: Seq<MappingModel>,
    y: Seq<MappingModel>,
    p: Seq<InviteModel>,
    q: Seq<InviteModel>,
    port: u16,
    udp: bool,
    id: u64,
)
    ensures
        (EngineModel { shares: a + b, ..e }).unshared(port, udp).shares == (EngineModel {
            shares: a,
            ..e
        }).unshared(port, udp).shares + (EngineModel { shares: b, ..e }).unshared(port, udp).shares,
        (EngineModel { mappings: x + y, ..e }).unmapped(id).mappings == (EngineModel {
            mappings: x,
            ..e
        }).unmapped(id).mappings + (EngineModel { mappings: y, ..e }).unmapped(id).mappings,
        (EngineModel { invites: p + q, ..e }).dismissed(id).invites == (EngineModel {
            invites: p,
            ..e
        }).dismissed(id).invites + (EngineModel { invites: q, ..e }).dismissed(id).invites,
{
    crate::lists::lemma_kept_add(a, b, crate::engine::not_shared_as(port, udp));
    crate::lists::lemma_kept_add(x, y, crate::engine::other_mapping(id));
    crate::lists::lemma_kept_add(p, q, crate::engine::other_invite(id));
}

/// The connect string of an invitation.
pub proof fn law_invite_wording(port: u16)
    ensures
        crate::engine::invite_text(port, false) == "steam-tunnel-v1:"@ + crate::text::decimal(
            port as nat,
        ),
        crate::engine::invite_text(port, true) == "steam-tunnel-v1:"@ + crate::text::decimal(
            port as nat,
        ) + ":udp"@,
{
}

/// A connect string that does not start like ours invites to nothing.
pub proof fn law_foreign_invite(connect: Seq<char>)
    requires
        forall|rest: Seq<char>| connect != #[trigger] ("steam-tunnel-v1:"@ + rest),
    ensures
        crate::engine::invited_to(connect) is None,
{
    let p = "steam-tunnel-v1:"@;
    crate::text_laws::law_affixes(connect, p);
    if let Some(rest) = crate::text::without_prefix(connect, p) {
        assert(connect == p + rest);
    }
}

/// An invitation is shown with who sent it and with the port and protocol that
/// it is for, behind the others. It replaces an earlier one of the same friend
/// to the same port and protocol, and no other; nothing else changes.
pub proof fn law_invited(e: EngineModel, friend: u64, name: Seq<char>, to: PortSpec, i: InviteModel)
    ensures
        ({
            let r = e.with_invite(friend, name, to);
            let last = r.invites.last();
            let from = crate::text::decimal(friend as nat);
            &&& last == InviteModel {
                id: e.next_id,
                from,
                from_name: name,
                port: to.port,
                udp: to.udp,
            }
            &&& r == EngineModel { invites: r.invites, next_id: r.next_id, ..e }
            &&& r.invites.drop_last().contains(i) <==> e.invites.contains(i) && !(i.from == from
                && i.port == to.port && i.udp == to.udp)
        }),
        e.dismissed(i.id) == (EngineModel { invites: e.dismissed(i.id).invites, ..e }),
{
    let from = crate::text::decimal(friend as nat);
    let p = crate::engine::not_from(from, to.port, to.udp);
    crate::lists::lemma_kept(e.invites, p);
    let r = e.with_invite(friend, name, to);
    assert(r.invites.drop_last() =~= crate::lists::kept(e.invites, p));
}

/// Every id that is given out is given out once: the next is one higher.
pub proof fn law_next_id(
    e: EngineModel,
    share: ShareRowModel,
    peer: u64,
    name: Seq<char>,
    to: PortSpec,
    nonce: [u8; 32],
    now: u64,
)
    requires
        e.next_id < u64::MAX,
    ensures
        e.with_incoming(share, peer, nonce, now).next_id == e.next_id + 1,
        e.with_outgoing(peer, to.port, to.udp, now).next_id == e.next_id + 1,
        e.with_mapping(peer, name, to.port, to.port, to.udp, now).next_id == e.next_id + 1,
        e.with_invite(peer, name, to).next_id == e.next_id + 1,
{
}

/// A peer that leaves a shared port ends its live tunnels there, for that
/// reason, and no others.
pub proof fn law_left(e: EngineModel, peer: u64, port: u16, i: int)
    ensures
        e.left(peer, port) == (EngineModel { tunnels: e.left(peer, port).tunnels, ..e }),
        e.left(peer, port).tunnels.len() == e.tunnels.len(),
        0 <= i < e.tunnels.len() ==> {
            let t = e.tunnels[i];
            let u = e.left(peer, port).tunnels[i];
            if t.dir == Dir::In && t.peer == peer && t.port == port && t.dead is None {
                u == (TunnelModel { dead: Some(CloseReason::PeerDisconnected), ..t })
            } else {
                u == t
            }
        },
{
}

/// A tunnel to a peer's port leads exactly there, and is new and alive; nothing
/// else changes.
pub proof fn law_outgoing(e: EngineModel, peer: u64, port: u16, udp: bool, now: u64)
    ensures
        ({
            let r = e.with_outgoing(peer, port, udp, now);
            let t = r.tunnels.last();
            &&& r.tunnels.drop_last() == e.tunnels
            &&& r == EngineModel { tunnels: r.tunnels, next_id: r.next_id, ..e }
            &&& t.id == e.next_id
            &&& t.dir == Dir::Out
            &&& t.peer == peer
            &&& t.port == port
            &&& t.udp == udp
            &&& t.state == ConnState::AwaitHello
            &&& t.dead is None
            &&& t.created == now && t.idle_since == now
            &&& t.streams.len() == 0 && t.pending.len() == 0
            &&& t.tx_bytes == 0 && t.rx_bytes == 0 && t.streams_served == 0
        }),
{
    let r = e.with_outgoing(peer, port, udp, now);
    assert(r.tunnels.drop_last() =~= e.tunnels);
}

/// Whether a tunnel is a live one of this side to a peer's port.
pub open spec fn leads(t: TunnelModel, peer: u64, port: u16, udp: bool) -> bool {
    &&& t.dead is None
    &&& t.dir == Dir::Out
    &&& t.peer == peer
    &&& t.port == port
    &&& t.udp == udp
}

/// The way to a peer's port is the first live tunnel of this side that leads
/// to that port of that peer with that protocol; without one there is none.
pub proof fn law_route(e: EngineModel, peer: u64, port: u16, udp: bool)
    ensures
        match e.route(peer, port, udp) {
            Some(i) => 0 <= i < e.tunnels.len() && leads(e.tunnels[i], peer, port, udp)
                && forall|j: int|
                0 <= j < i ==> !leads(#[trigger] e.tunnels[j], peer, port, udp),
            None => forall|j: int|
                0 <= j < e.tunnels.len() ==> !leads(#[trigger] e.tunnels[j], peer, port, udp),
        },
{
    let p = crate::engine::route_to(peer, port, udp);
    crate::lists::lemma_first_where(e.tunnels, p);
    assert forall|j: int| 0 <= j < e.tunnels.len() implies p(#[trigger] e.tunnels[j]) == leads(
        e.tunnels[j],
        peer,
        port,
        udp,
    ) by {
    }
}

/// After an attempt for a UDP mapping the next one waits three seconds; the
/// mapping stays the same otherwise, and so does everything else. A TCP mapping
/// is never due, nor is one for binding that is bound, nor one for a tunnel
/// that has one or is not bound.
pub proof fn law_attempts(e: EngineModel, i: int, now: u64, later: u64)
    requires
        0 <= i < e.mappings.len(),
        now <= u64::MAX - 3_000_000_000,
    ensures
        ({
            let r = e.tried(i, now);
            &&& r.bind_due(i, later) || r.route_due(i, later) ==> later >= now + 3_000_000_000
            &&& r.mappings[i] == MappingModel {
                next_spawn: r.mappings[i].next_spawn,
                ..e.mappings[i]
            }
            &&& r == EngineModel { mappings: e.mappings.update(i, r.mappings[i]), ..e }
            &&& e.mappings[i].udp && !e.mappings[i].bound && later >= now + 3_000_000_000
                ==> r.bind_due(i, later)
        }),
        e.bind_due(i, now) ==> e.mappings[i].udp && !e.mappings[i].bound,
        e.route_due(i, now) ==> e.mappings[i].udp && e.mappings[i].bound && e.route(
            e.mappings[i].peer,
            e.mappings[i].remote_port,
            true,
        ) is None,
        e.mappings[i].udp && e.mappings[i].bound && e.route(
            e.mappings[i].peer,
            e.mappings[i].remote_port,
            true,
        ) is None && e.mappings[i].next_spawn <= now ==> e.route_due(i, now),
{
}

/// A stream for a local program is a new one of its mapping, with its own
/// socket, under the next id; it is alive and has carried nothing. The peer is
/// told at once if and only if the tunnel is open, and behind what waits. The
/// other streams stay.
pub proof fn law_local_stream(t: TunnelModel, mapping_id: u64, local: LocalSock, now: u64)
    ensures
        ({
            let r = t.with_local_stream(mapping_id, local, now);
            let st = r.streams.last();
            &&& r.streams.drop_last() == t.streams
            &&& st.id == t.next_stream_id
            &&& st.mapping_id == Some(mapping_id)
            &&& st.local == Some(local)
            &&& st.open_sent <==> t.state == ConnState::Active
            &&& st.last_activity == now
            &&& st.dead is None
            &&& !st.tcp_eof && !st.remote_eof && !st.reset && !st.wr_shutdown
            &&& st.tcp_out.len() == 0 && st.pre_buf.len() == 0
            &&& st.tx_bytes == 0 && st.rx_bytes == 0
            &&& r.pending == if t.state == ConnState::Active && t.pending.len() > 0 {
                t.pending.push(
                    crate::protocol::frame_bytes(F_OPEN, t.next_stream_id, Seq::empty()),
                )
            } else {
                t.pending
            }
            &&& t.next_opening() == crate::protocol::frame_bytes(
                F_OPEN,
                t.next_stream_id,
                Seq::empty(),
            )
            &&& t.next_stream_id < u32::MAX ==> r.next_stream_id == t.next_stream_id + 1
            &&& t.streams_served < u64::MAX ==> r.streams_served == t.streams_served + 1
            &&& r == TunnelModel {
                streams: r.streams,
                pending: r.pending,
                next_stream_id: r.next_stream_id,
                streams_served: r.streams_served,
                ..t
            }
        }),
{
    let r = t.with_local_stream(mapping_id, local, now);
    assert(r.streams.drop_last() =~= t.streams);
}

/// Whether a stream is the live flow of a mapping for a local address.
pub open spec fn is_flow(st: StreamModel, id: u64, src: FlowAddr) -> bool {
    &&& st.dead is None
    &&& st.mapping_id == Some(id)
    &&& st.local == Some(LocalSock::Udp { peer: Some(src) })
}

/// A datagram from a local address goes to the tunnel that leads to the
/// mapping's port, and there to the live flow of that address. A flow that is
/// missing is opened, with that address to reply to, unless the mapping has 64
/// already. Without a tunnel the datagram is lost. Nothing else changes.
pub proof fn law_datagram_dispatched(e: EngineModel, i: int, src: FlowAddr, now: u64)
    requires
        0 <= i < e.mappings.len(),
    ensures
        ({
            let m = e.mappings[i];
            let (r, place) = e.on_datagram(i, src, now);
            match e.route(m.peer, m.remote_port, true) {
                None => r == e && place is None,
                Some(ti) => {
                    let t = e.tunnels[ti];
                    let mine = |st: StreamModel| st.mapping_id == Some(m.id);
                    let full = crate::lists::kept(t.streams, mine).len() >= 64;
                    let found = exists|k: int|
                        0 <= k < t.streams.len() && is_flow(#[trigger] t.streams[k], m.id, src);
                    &&& found ==> r == e && (place matches Some((a, k)) && a == ti && 0 <= k
                        < t.streams.len() && is_flow(t.streams[k], m.id, src))
                    &&& !found && full ==> r == e && place is None
                    &&& !found && !full ==> place == Some((ti, t.streams.len() as int)) && r == (
                    EngineModel {
                        tunnels: e.tunnels.update(
                            ti,
                            t.with_local_stream(m.id, LocalSock::Udp { peer: Some(src) }, now),
                        ),
                        ..e
                    }) && is_flow(r.tunnels[ti].streams[t.streams.len() as int], m.id, src)
                },
            }
        }),
{
    let m = e.mappings[i];
    crate::lists::lemma_first_where(
        e.tunnels,
        crate::engine::route_to(m.peer, m.remote_port, true),
    );
    if let Some(ti) = e.route(m.peer, m.remote_port, true) {
        let t = e.tunnels[ti];
        let p = crate::engine::flow_from(m.id, src);
        crate::lists::lemma_first_where(t.streams, p);
        assert forall|k: int| 0 <= k < t.streams.len() implies p(#[trigger] t.streams[k])
            == is_flow(t.streams[k], m.id, src) by {
        }
        let mine = |st: StreamModel| st.mapping_id == Some(m.id);
        assert(mine =~= crate::engine::of_mapping(m.id));
    }
}

/// No more than 64 datagrams of a mapping are read in a turn, and none while a
/// frame waits on the tunnel that would carry it; otherwise they are.
pub proof fn law_datagram_share(e: EngineModel, i: int, done: int)
    ensures
        done >= 64 ==> !e.reads_datagram(i, done),
        e.route(e.mappings[i].peer, e.mappings[i].remote_port, true) matches Some(ti)
            && e.tunnels[ti].pending.len() > 0 ==> !e.reads_datagram(i, done),
        done < 64 && (e.route(
            e.mappings[i].peer,
            e.mappings[i].remote_port,
            true,
        ) matches Some(ti) ==> e.tunnels[ti].pending.len() == 0) ==> e.reads_datagram(i, done),
{
}

/// Of the end of a tunnel the log tells, with its id and why, unless it only
/// idled and never served a stream; of a live one it tells nothing.
pub proof fn law_end_logged(t: TunnelModel)
    ensures
        t.dead is None ==> crate::engine::end_log(t).len() == 0,
        t.dead == Some(CloseReason::Idle) && t.streams_served == 0 ==> crate::engine::end_log(
            t,
        ).len() == 0,
        t.dead matches Some(why) && (why != CloseReason::Idle || t.streams_served > 0)
            ==> crate::engine::end_log(t) == seq![
            "Tunnel "@ + crate::text::decimal(t.id as nat) + " closed: "@
                + crate::stream::reason_text(t.dead->0),
        ],
{
}

/// After a change of the send rate a share stays if and only if its socket was
/// opened anew, and in its order.
pub proof fn law_reshared(
    a: Seq<ShareRowModel>,
    x: Seq<bool>,
    share: ShareRowModel,
    opened: bool,
)
    requires
        a.len() == x.len(),
    ensures
        crate::engine::still_open(a.push(share), x.push(opened)) == if opened {
            crate::engine::still_open(a, x).push(share)
        } else {
            crate::engine::still_open(a, x)
        },
        crate::engine::still_open(Seq::empty(), Seq::empty()).len() == 0,
        forall|e: EngineModel| #[trigger]
            e.reshared(x) == (EngineModel { shares: e.reshared(x).shares, ..e }),
        forall|e: EngineModel|
            e.shares == a ==> (#[trigger] e.reshared(x)).shares == crate::engine::still_open(a, x),
{
    assert(a.push(share).drop_last() =~= a);
    assert(x.push(opened).drop_last() =~= x);
}

/// Who is let in: nobody without a SteamID, and otherwise whom the allowlist
/// names, or the friends if it names nobody. Who is not is named in the log.
pub proof fn law_admitted(sid: u64, allowlist: Seq<u64>, friends: Seq<u64>)
    ensures
        !crate::engine::admitted(None, allowlist, friends),
        allowlist.len() > 0 ==> (crate::engine::admitted(Some(sid), allowlist, friends)
            <==> allowlist.contains(sid)),
        allowlist.len() == 0 ==> (crate::engine::admitted(Some(sid), allowlist, friends)
            <==> friends.contains(sid)),
        crate::engine::refusal(Some(sid)) == "Rejected connection from "@ + crate::text::decimal(
            sid as nat,
        ) + " (not allowed)"@,
        crate::engine::refusal(None) == "Rejected connection from "@ + " (not allowed)"@,
{
    let none = Seq::<char>::empty();
    assert("Rejected connection from "@ + none + " (not allowed)"@ =~= "Rejected connection from "@
        + " (not allowed)"@);
}

/// A port is shared if and only if its listen socket could be opened, and the
/// log says which of the two it was.
pub proof fn law_share_outcome(e: EngineModel, share: ShareRowModel)
    ensures
        e.on_share(share, true).engine.shares == e.shares.push(share),
        e.on_share(share, true).engine == (EngineModel { shares: e.shares.push(share), ..e }),
        e.on_share(share, true).log == seq![
            "Sharing "@ + if share.udp {
                "udp"@
            } else {
                "tcp"@
            } + " port "@ + crate::text::decimal(share.port as nat) + " -> "@ + share.target,
        ],
        e.on_share(share, false).engine == e,
        e.on_share(share, false).log == seq![
            "Failed to open listen socket for port "@ + crate::text::decimal(share.port as nat),
        ],
{
}

/// A peer's port is mapped to a local TCP port if and only if that could be
/// bound, and to a local UDP port at once; the mapping is what was asked for.
pub proof fn law_connect_outcome(
    e: EngineModel,
    peer: u64,
    name: Seq<char>,
    remote_port: u16,
    local_port: u16,
    error: Seq<char>,
    now: u64,
)
    ensures
        ({
            let s = e.on_connect_tcp(peer, name, remote_port, local_port, Ok(()), now);
            let u = e.on_connect_udp(peer, name, remote_port, local_port, now);
            let m = s.engine.mappings.last();
            let n = u.engine.mappings.last();
            &&& s.engine.mappings.len() == e.mappings.len() + 1
            &&& u.engine.mappings.len() == e.mappings.len() + 1
            &&& m.peer == peer && m.peer_name == name && m.remote_port == remote_port
            &&& m.local_port == local_port && !m.udp && m.bound
            &&& n.peer == peer && n.peer_name == name && n.remote_port == remote_port
            &&& n.local_port == local_port && n.udp && !n.bound
            &&& s.engine.tunnels == e.tunnels && u.engine.tunnels == e.tunnels
            &&& s.engine.shares == e.shares && u.engine.shares == e.shares
            &&& s.log == seq![
                "Mapping localhost:"@ + crate::text::decimal(local_port as nat) + " -> "@ + name
                    + ":"@ + crate::text::decimal(remote_port as nat),
            ]
            &&& u.log == seq![
                "Mapping localhost:"@ + crate::text::decimal(local_port as nat) + " -> "@ + name
                    + ":"@ + crate::text::decimal(remote_port as nat) + " (udp)"@,
            ]
        }),
        ({
            let s = e.on_connect_tcp(peer, name, remote_port, local_port, Err(error), now);
            &&& s.engine == e
            &&& s.log == seq![
                "Cannot bind localhost:"@ + crate::text::decimal(local_port as nat) + ": "@ + error,
            ]
        }),
{
}

/// An invitation that a friend sends for a port is shown here as one of that
/// friend to that port, with its protocol, and the log says so.
pub proof fn law_invite_arrives(
    e: EngineModel,
    friend: u64,
    name: Seq<char>,
    port: u16,
    udp: bool,
    other: Seq<char>,
)
    ensures
        ({
            let s = e.on_invite(friend, name, crate::engine::invite_text(port, udp));
            let i = s.engine.invites.last();
            &&& s.engine.invites.len() > 0
            &&& i.from == crate::text::decimal(friend as nat)
            &&& i.from_name == name
            &&& i.port == port
            &&& i.udp == udp
            &&& i.id == e.next_id
            &&& s.log == seq![
                name + " invites you to connect to their port "@ + crate::text::decimal(
                    port as nat,
                ),
            ]
        }),
        crate::engine::invited_to(other) is None ==> e.on_invite(friend, name, other).engine == e
            && e.on_invite(friend, name, other).log.len() == 0,
{
    crate::engine::law_invite_round_trip(port, udp);
}

/// A peer that connects is greeted with the challenge that its tunnel keeps,
/// and with the demand for a key if and only if one is set. Without a challenge
/// it is not greeted and gets no tunnel.
pub proof fn law_peer_greeted(
    e: EngineModel,
    i: int,
    peer: u64,
    name: Seq<char>,
    nonce: [u8; 32],
    psk_set: bool,
    now: u64,
)
    requires
        0 <= i < e.shares.len(),
    ensures
        ({
            let s = e.on_peer(i, peer, name, Some(nonce), now);
            let t = s.engine.tunnels.last();
            &&& crate::engine::greeting(Some(nonce), psk_set) matches Some(h)
                && crate::handshake::hello_of(h) matches Some(g) && g.auth_required == psk_set
                && g.nonce == nonce@
            &&& s.engine.tunnels.len() == e.tunnels.len() + 1
            &&& t.nonce == Some(nonce)
            &&& t.peer == peer
            &&& t.port == e.shares[i].port
            &&& t.udp == e.shares[i].udp
            &&& t.target == e.shares[i].target
            &&& s.log == seq![
                "Incoming tunnel from "@ + name + " to port "@ + crate::text::decimal(
                    e.shares[i].port as nat,
                ),
            ]
        }),
        crate::engine::greeting(None, psk_set) is None,
        e.on_peer(i, peer, name, None, now).engine == e,
{
    crate::handshake::law_hello_round_trip(psk_set, nonce);
}

/// A UDP mapping is bound if and only if its local port could be, and then not
/// tried again; otherwise the log says why.
pub proof fn law_bound(e: EngineModel, i: int, error: Seq<char>, later: u64)
    requires
        0 <= i < e.mappings.len(),
    ensures
        e.on_bound(i, Ok(())).engine == (EngineModel {
            mappings: e.mappings.update(i, MappingModel { bound: true, ..e.mappings[i] }),
            ..e
        }),
        e.on_bound(i, Ok(())).log.len() == 0,
        !e.on_bound(i, Ok(())).engine.bind_due(i, later),
        e.on_bound(i, Err(error)).engine == e,
        e.on_bound(i, Err(error)).log == seq![
            "Cannot bind udp localhost:"@ + crate::text::decimal(e.mappings[i].local_port as nat)
                + ": "@ + error,
        ],
{
}

/// A tunnel to a peer's port is the one that leads there already, and then
/// nothing changes; or a new one behind the others, if a connection could be
/// started; or none.
pub proof fn law_ensured(
    e: EngineModel,
    peer: u64,
    port: u16,
    udp: bool,
    started: bool,
    now: u64,
)
    ensures
        ({
            let (r, place) = e.ensured(peer, port, udp, started, now);
            let there = exists|i: int|
                0 <= i < e.tunnels.len() && leads(#[trigger] e.tunnels[i], peer, port, udp);
            &&& place matches Some(k) ==> 0 <= k < r.tunnels.len() && leads(
                r.tunnels[k],
                peer,
                port,
                udp,
            )
            &&& place is Some <==> there || started
            &&& there || !started ==> r == e
            &&& !there && started ==> r.tunnels.drop_last() == e.tunnels && place == Some(
                e.tunnels.len() as int,
            )
        }),
{
    law_route(e, peer, port, udp);
    law_outgoing(e, peer, port, udp, now);
}

/// A local program that connects to a TCP mapping gets a TCP stream of that
/// mapping, behind the others of the tunnel, and no other tunnel changes. The
/// log tells of a tunnel that has to be opened for it.
pub proof fn law_accepted(e: EngineModel, mi: int, ti: int, now: u64)
    requires
        0 <= mi < e.mappings.len(),
        0 <= ti < e.tunnels.len(),
    ensures
        ({
            let s = e.on_accept(mi, ti, now);
            let t = e.tunnels[ti];
            let u = s.engine.tunnels[ti];
            &&& s.engine == EngineModel { tunnels: e.tunnels.update(ti, u), ..e }
            &&& u.streams.drop_last() == t.streams
            &&& u.streams.last().local == Some(LocalSock::Tcp)
            &&& u.streams.last().mapping_id == Some(e.mappings[mi].id)
            &&& u.streams.last().id == t.next_stream_id
            &&& t.state == ConnState::Active ==> s.log.len() == 0
            &&& t.state != ConnState::Active ==> s.log == seq![
                "Opening tunnel to "@ + e.mappings[mi].peer_name + ":"@ + crate::text::decimal(
                    e.mappings[mi].remote_port as nat,
                ) + " for local client"@,
            ]
            &&& t.opening_to_try() is Some <==> t.state == ConnState::Active && t.pending.len()
                == 0
            &&& t.opening_to_try() matches Some(f) ==> f == crate::protocol::frame_bytes(
                F_OPEN,
                t.next_stream_id,
                Seq::empty(),
            )
        }),
{
    law_local_stream(e.tunnels[ti], e.mappings[mi].id, LocalSock::Tcp, now);
}

/// The first tunnel that has ended is removed and handed over, and no other;
/// the rest stay in their order.
pub proof fn law_reaped(e: EngineModel, a: Seq<TunnelModel>, t: TunnelModel, b: Seq<TunnelModel>)
    requires
        forall|i: int| 0 <= i < a.len() ==> (#[trigger] a[i]).dead is None,
    ensures
        e.tunnels == a + seq![t] + b && t.dead is Some ==> {
            let (s, ended) = e.reaped();
            &&& ended == Some(t)
            &&& s.engine == EngineModel { tunnels: a + b, ..e }
            &&& s.log == crate::engine::end_log(t)
        },
        e.tunnels == a ==> e.reaped().1 is None && e.reaped().0.engine == e
            && e.reaped().0.log.len() == 0,
{
    let p = crate::engine::has_ended();
    let n = a.len() as int;
    if e.tunnels == a + seq![t] + b && t.dead is Some {
        assert forall|i: int| 0 <= i < n implies !p(#[trigger] e.tunnels[i]) by {
            assert(e.tunnels[i] == a[i]);
        }
        assert(e.tunnels[n] == t);
        crate::lists::lemma_first_where_is(e.tunnels, p, n);
        assert(e.tunnels.remove(n) =~= a + b);
    }
    if e.tunnels == a {
        assert forall|i: int| 0 <= i < n implies !p(#[trigger] e.tunnels[i]) by {
            assert(e.tunnels[i] == a[i]);
        }
        crate::lists::lemma_first_where_is(e.tunnels, p, n);
    }
}


/// What is said of a port that is shared under the other protocol.
pub proof fn law_already_shared(e: EngineModel, port: u16, udp: bool, target: Option<Seq<char>>, i: int)
    requires
        crate::engine::ports_distinct(e.shares),
        0 <= i < e.shares.len(),
        e.shares[i].port == port,
        e.shares[i].udp != udp,
    ensures
        e.share_plan(port, udp, target).log == seq![
            "Port "@ + crate::text::decimal(port as nat) + " is already shared as "@ + if udp {
                "tcp"@
            } else {
                "udp"@
            } + " — one protocol per port"@,
        ],
{
    let p = crate::engine::on_port(port);
    crate::lists::lemma_first_where(e.shares, p);
    assert(p(e.shares[i]));
    let k = crate::lists::first_where(e.shares, p)->0;
    if k != i {
        assert(e.shares[k].port == e.shares[i].port);
    }
}

/// An attempt so late that no later one could be told apart is the last.
pub proof fn law_last_attempt(e: EngineModel, i: int, now: u64)
    requires
        0 <= i < e.mappings.len(),
        now > u64::MAX - 3_000_000_000,
    ensures
        e.tried(i, now).mappings[i].next_spawn == u64::MAX,
{
}

/// A tunnel starts out with nothing: no stream, nothing that waits, nothing
/// counted or measured, and stream ids from 1 on.
pub proof fn law_fresh_tunnel(
    id: u64,
    dir: Dir,
    peer: u64,
    port: u16,
    udp: bool,
    state: ConnState,
    nonce: Option<[u8; 32]>,
    target: Seq<char>,
    now: u64,
)
    ensures
        ({
            let t = TunnelModel::fresh(id, dir, peer, port, udp, state, nonce, target, now);
            &&& t.id == id && t.dir == dir && t.peer == peer && t.port == port && t.udp == udp
            &&& t.state == state && t.nonce == nonce && t.target == target
            &&& t.created == now && t.idle_since == now
            &&& t.next_stream_id == 1
            &&& t.streams.len() == 0 && t.pending.len() == 0 && t.streams_served == 0
            &&& t.peer_version.len() == 0
            &&& t.ping_ms == -1 && t.quality == 0xbf80_0000
            &&& t.tx_bytes == 0 && t.rx_bytes == 0 && t.tx_rate == 0 && t.rx_rate == 0
            &&& t.last_tx == 0 && t.last_rx == 0
            &&& t.dead is None
        }),
{
}


/// What ends a share, removes a mapping or opens the shares anew is told by the
/// log, and does what it is told to do.
pub proof fn law_removals_logged(e: EngineModel, port: u16, udp: bool, id: u64, opened: Seq<bool>)
    ensures
        e.on_unshare(port, udp).engine == e.unshared(port, udp),
        e.on_unshare(port, udp).log == seq![
            "Stopped sharing port "@ + crate::text::decimal(port as nat),
        ],
        e.on_stop_mapping(id).engine == e.unmapped(id),
        e.on_stop_mapping(id).log == seq![
            "Mapping "@ + crate::text::decimal(id as nat) + " removed"@,
        ],
        e.on_reshare(opened).engine == e.reshared(opened),
        e.on_reshare(opened).log == seq!["Send rate updated (applies to new tunnels)"@],
{
}

/// An attempt that was made puts off the next one, and one that was not made
/// changes nothing.
pub proof fn law_attempt_made(e: EngineModel, i: int, now: u64, later: u64)
    requires
        0 <= i < e.mappings.len(),
        now <= u64::MAX - 3_000_000_000,
        later < now + 3_000_000_000,
    ensures
        e.after_attempt(i, false, now) == e,
        !e.after_attempt(i, true, now).bind_due(i, later),
        !e.after_attempt(i, true, now).route_due(i, later),
        e.after_attempt(i, true, now).tunnels == e.tunnels,
{
}

} // verus!
