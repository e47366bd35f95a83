//! What is shared, mapped and open, and how commands, invitations and
//! connections change it.
use vstd::prelude::*;
use vstd::string::*;

use crate::auth::fresh_nonce;
use crate::lists::keep_where;
use crate::log;
use crate::protocol::{hello, MAX_DGRAMS_PER_TICK};
use crate::state::{InviteModel, InviteRow, PortSpec, ShareRow, ShareRowModel};
use crate::stream::{CloseReason, Dir, FlowAddr, LocalSock, StreamModel};
use crate::text::{number, parse_number, same, strip_prefix, strip_suffix, trim};
use crate::tunnel::{new_tunnel, ConnState, Tunnel, TunnelModel};

verus! {

/// What an invitation's connect string starts with.
pub const INVITE_PREFIX: &'static str = "steam-tunnel-v1:";

/// What ends the connect string of an invitation to a UDP port.
pub const INVITE_UDP: &'static str = ":udp";

/// Time between attempts to bind or to connect for a UDP mapping, in
/// nanoseconds.
pub const UDP_RESPAWN_DELAY: u64 = 3_000_000_000;

/// Flows that a UDP mapping may have at a time.
pub const MAX_UDP_FLOWS: usize = 64;

/// A mapping as a value.
#[verifier::ext_equal]
pub struct MappingModel {
    pub id: u64,
    pub peer: u64,
    pub peer_name: Seq<char>,
    pub remote_port: u16,
    pub local_port: u16,
    pub udp: bool,
    pub bound: bool,
    pub next_spawn: u64,
}

/// A peer's port under a local one.
pub struct Mapping {
    pub id: u64,
    pub peer: u64,
    pub peer_name: String,
    pub remote_port: u16,
    pub local_port: u16,
    pub udp: bool,
    /// Whether the local socket is open.
    pub bound: bool,
    /// UDP: when to bind or to connect next, at the earliest.
    pub next_spawn: u64,
}

impl View for Mapping {
    type V = MappingModel;

    open spec fn view(&self) -> MappingModel {
        MappingModel {
            id: self.id,
            peer: self.peer,
            peer_name: self.peer_name@,
            remote_port: self.remote_port,
            local_port: self.local_port,
            udp: self.udp,
            bound: self.bound,
            next_spawn: self.next_spawn,
        }
    }
}

pub open spec fn mapping_models(v: Seq<Mapping>) -> Seq<MappingModel> {
    v.map_values(|m: Mapping| m@)
}

pub open spec fn tunnel_models(v: Seq<Tunnel>) -> Seq<TunnelModel> {
    v.map_values(|t: Tunnel| t@)
}

/// The engine as a value.
#[verifier::ext_equal]
pub struct EngineModel {
    pub shares: Seq<ShareRowModel>,
    pub mappings: Seq<MappingModel>,
    pub tunnels: Seq<TunnelModel>,
    pub invites: Seq<InviteModel>,
    pub next_id: u64,
}

/// The connect string of an invitation.
pub open spec fn invite_text(port: u16, udp: bool) -> Seq<char> {
    let plain = INVITE_PREFIX@ + crate::text::decimal(port as nat);
    if udp {
        plain + INVITE_UDP@
    } else {
        plain
    }
}

/// The port that a connect string invites to, if it is one of ours.
pub open spec fn invited_to(connect: Seq<char>) -> Option<PortSpec> {
    match crate::text::without_prefix(connect, INVITE_PREFIX@) {
        None => None,
        Some(rest) => {
            let (digits, udp) = match crate::text::without_suffix(rest, INVITE_UDP@) {
                Some(d) => (d, true),
                None => (rest, false),
            };
            match crate::text::parsed_number(
                crate::text::trimmed(digits),
                10,
                u16::MAX as int,
            ) {
                Some(port) => Some(PortSpec { port: port as u16, udp }),
                None => None,
            }
        },
    }
}

/// Whom a host lets in: those on the allowlist, or if it is empty its friends.
pub open spec fn allowed(sid: u64, allowlist: Seq<u64>, friends: Seq<u64>) -> bool {
    if allowlist.len() > 0 {
        allowlist.contains(sid)
    } else {
        friends.contains(sid)
    }
}

/// Shares of a port, whatever the protocol.
pub open spec fn on_port(port: u16) -> spec_fn(ShareRowModel) -> bool {
    |s: ShareRowModel| s.port == port
}

/// Shares other than that of a port and protocol.
pub open spec fn not_shared_as(port: u16, udp: bool) -> spec_fn(ShareRowModel) -> bool {
    |s: ShareRowModel| !(s.port == port && s.udp == udp)
}

/// Mappings other than one.
pub open spec fn other_mapping(id: u64) -> spec_fn(MappingModel) -> bool {
    |m: MappingModel| m.id != id
}

/// Invitations other than one.
pub open spec fn other_invite(id: u64) -> spec_fn(InviteModel) -> bool {
    |i: InviteModel| i.id != id
}

/// Invitations other than those of a friend to a port.
pub open spec fn not_from(from: Seq<char>, port: u16, udp: bool) -> spec_fn(InviteModel) -> bool {
    |i: InviteModel| !(i.from == from && i.port == port && i.udp == udp)
}

/// A tunnel after its share was removed.
pub open spec fn unshared_tunnel(t: TunnelModel, port: u16, udp: bool) -> TunnelModel {
    if t.dir == Dir::In && t.port == port && t.udp == udp {
        t.ended(CloseReason::ShareRemoved)
    } else {
        t
    }
}

/// A stream after its mapping was removed.
pub open spec fn unmapped_stream(st: StreamModel, id: u64) -> StreamModel {
    if st.mapping_id == Some(id) {
        st.ended(CloseReason::MappingRemoved)
    } else {
        st
    }
}

/// A tunnel after a mapping was removed.
pub open spec fn unmapped_tunnel(t: TunnelModel, id: u64) -> TunnelModel {
    TunnelModel { streams: t.streams.map_values(|st: StreamModel| unmapped_stream(st, id)), ..t }
}

/// A tunnel after its peer left a shared port.
pub open spec fn left_tunnel(t: TunnelModel, peer: u64, port: u16) -> TunnelModel {
    if t.dir == Dir::In && t.peer == peer && t.port == port && t.dead is None {
        t.ended(CloseReason::PeerDisconnected)
    } else {
        t
    }
}

/// What a command to share a port comes to: the share to open, and the lines
/// to log.
pub struct SharePlan {
    pub share: Option<ShareRowModel>,
    pub log: Seq<Seq<char>>,
}

impl EngineModel {
    /// With an id given out.
    pub open spec fn id_taken(self) -> EngineModel {
        EngineModel { next_id: self.next_id.wrapping_add(1), ..self }
    }

    /// A port is shared once: a second share of it is refused, and that is
    /// logged if the protocols differ. Without a target the share forwards to
    /// the same port here.
    pub open spec fn share_plan(self, port: u16, udp: bool, target: Option<Seq<char>>) ->
        SharePlan {
        match crate::lists::first_where(self.shares, on_port(port)) {
            Some(i) => SharePlan {
                share: None,
                log: if self.shares[i].udp != udp {
                    seq![log::already_shared_text(port, self.shares[i].udp)]
                } else {
                    Seq::empty()
                },
            },
            None => SharePlan {
                share: Some(
                    ShareRowModel {
                        port,
                        udp,
                        target: match target {
                            Some(t) => t,
                            None => default_target(port),
                        },
                    },
                ),
                log: Seq::empty(),
            },
        }
    }

    pub open spec fn with_share(self, share: ShareRowModel) -> EngineModel {
        EngineModel { shares: self.shares.push(share), ..self }
    }

    pub open spec fn unshared(self, port: u16, udp: bool) -> EngineModel {
        EngineModel {
            shares: crate::lists::kept(self.shares, not_shared_as(port, udp)),
            tunnels: self.tunnels.map_values(|t: TunnelModel| unshared_tunnel(t, port, udp)),
            ..self
        }
    }

    pub open spec fn with_mapping(
        self,
        peer: u64,
        peer_name: Seq<char>,
        remote_port: u16,
        local_port: u16,
        udp: bool,
        now: u64,
    ) -> EngineModel {
        EngineModel {
            mappings: self.mappings.push(
                MappingModel {
                    id: self.next_id,
                    peer,
                    peer_name,
                    remote_port,
                    local_port,
                    udp,
                    bound: !udp,
                    next_spawn: now,
                },
            ),
            ..self.id_taken()
        }
    }

    pub open spec fn unmapped(self, id: u64) -> EngineModel {
        EngineModel {
            mappings: crate::lists::kept(self.mappings, other_mapping(id)),
            tunnels: self.tunnels.map_values(|t: TunnelModel| unmapped_tunnel(t, id)),
            ..self
        }
    }

    pub open spec fn dismissed(self, id: u64) -> EngineModel {
        EngineModel { invites: crate::lists::kept(self.invites, other_invite(id)), ..self }
    }

    /// With an invitation, which takes the place of an earlier one of the same
    /// friend to the same port.
    pub open spec fn with_invite(self, friend: u64, from_name: Seq<char>, to: PortSpec) ->
        EngineModel {
        let from = crate::text::decimal(friend as nat);
        EngineModel {
            invites: crate::lists::kept(self.invites, not_from(from, to.port, to.udp)).push(
                InviteModel { id: self.next_id, from, from_name, port: to.port, udp: to.udp },
            ),
            ..self.id_taken()
        }
    }

    /// With the tunnel of a peer that was let in on a share.
    pub open spec fn with_incoming(
        self,
        share: ShareRowModel,
        peer: u64,
        nonce: [u8; 32],
        now: u64,
    ) -> EngineModel {
        EngineModel {
            tunnels: self.tunnels.push(
                TunnelModel::fresh(
                    self.next_id,
                    Dir::In,
                    peer,
                    share.port,
                    share.udp,
                    ConnState::AwaitAuth,
                    Some(nonce),
                    share.target,
                    now,
                ),
            ),
            ..self.id_taken()
        }
    }

    pub open spec fn left(self, peer: u64, port: u16) -> EngineModel {
        EngineModel {
            tunnels: self.tunnels.map_values(|t: TunnelModel| left_tunnel(t, peer, port)),
            ..self
        }
    }

    /// With a new outgoing tunnel.
    pub open spec fn with_outgoing(self, peer: u64, port: u16, udp: bool, now: u64) ->
        EngineModel {
        EngineModel {
            tunnels: self.tunnels.push(
                TunnelModel::fresh(
                    self.next_id,
                    Dir::Out,
                    peer,
                    port,
                    udp,
                    ConnState::AwaitHello,
                    None,
                    Seq::empty(),
                    now,
                ),
            ),
            ..self.id_taken()
        }
    }
}

/// Whether a connection is let in: not without a SteamID.
pub open spec fn admitted(sid: Option<u64>, allowlist: Seq<u64>, friends: Seq<u64>) -> bool {
    match sid {
        Some(s) => allowed(s, allowlist, friends),
        None => false,
    }
}

/// The line for a connection that was not let in.
pub open spec fn refusal(sid: Option<u64>) -> Seq<char> {
    log::rejected_text(
        match sid {
            Some(s) => crate::text::decimal(s as nat),
            None => Seq::empty(),
        },
    )
}

/// What became of an engine, and the lines that it logs.
#[verifier::ext_equal]
pub struct EngineStep {
    pub engine: EngineModel,
    pub log: Seq<Seq<char>>,
}

impl EngineModel {
    /// As it is, with a line logged.
    pub open spec fn noting(self, line: Seq<char>) -> EngineStep {
        EngineStep { engine: self, log: seq![line] }
    }

    /// After the listen socket of a share was opened, or could not be.
    pub open spec fn on_share(self, share: ShareRowModel, opened: bool) -> EngineStep {
        if opened {
            self.with_share(share).noting(
                log::sharing_text(share.port, share.udp, share.target),
            )
        } else {
            self.noting(log::listen_failed_text(share.port))
        }
    }

    /// After a command to end a share.
    pub open spec fn on_unshare(self, port: u16, udp: bool) -> EngineStep {
        self.unshared(port, udp).noting(log::unshared_text(port))
    }

    /// After a command to remove a mapping.
    pub open spec fn on_stop_mapping(self, id: u64) -> EngineStep {
        self.unmapped(id).noting(log::mapping_removed_text(id))
    }

    /// After a change of the send rate.
    pub open spec fn on_reshare(self, opened: Seq<bool>) -> EngineStep {
        self.reshared(opened).noting(log::SEND_RATE_UPDATED@)
    }

    /// After a local TCP port was bound for a peer's port, or could not be.
    pub open spec fn on_connect_tcp(
        self,
        peer: u64,
        peer_name: Seq<char>,
        remote_port: u16,
        local_port: u16,
        bound: Result<(), Seq<char>>,
        now: u64,
    ) -> EngineStep {
        match bound {
            Ok(_) => self.with_mapping(
                peer,
                peer_name,
                remote_port,
                local_port,
                false,
                now,
            ).noting(log::mapping_tcp_text(local_port, peer_name, remote_port)),
            Err(e) => self.noting(log::bind_failed_text(local_port, e)),
        }
    }

    /// After a command to map a peer's UDP port.
    pub open spec fn on_connect_udp(
        self,
        peer: u64,
        peer_name: Seq<char>,
        remote_port: u16,
        local_port: u16,
        now: u64,
    ) -> EngineStep {
        self.with_mapping(peer, peer_name, remote_port, local_port, true, now).noting(
            log::mapping_udp_text(local_port, peer_name, remote_port),
        )
    }

    /// After an invitation arrived: one that is none of ours is ignored.
    pub open spec fn on_invite(self, friend: u64, from_name: Seq<char>, connect: Seq<char>) ->
        EngineStep {
        match invited_to(connect) {
            Some(to) => self.with_invite(friend, from_name, to).noting(
                log::invited_text(from_name, to.port),
            ),
            None => EngineStep { engine: self, log: Seq::empty() },
        }
    }

    /// After a peer connected on the share at `i`: without a challenge for it
    /// it is dropped.
    pub open spec fn on_peer(
        self,
        i: int,
        peer: u64,
        peer_name: Seq<char>,
        nonce: Option<[u8; 32]>,
        now: u64,
    ) -> EngineStep {
        match nonce {
            Some(n) => self.with_incoming(self.shares[i], peer, n, now).noting(
                log::incoming_text(peer_name, self.shares[i].port),
            ),
            None => self.noting(log::NO_RANDOMNESS@),
        }
    }
}

/// What a peer that connected is greeted with: nothing without a challenge.
pub open spec fn greeting(nonce: Option<[u8; 32]>, psk_set: bool) -> Option<Seq<u8>> {
    match nonce {
        Some(n) => Some(crate::protocol::hello_bytes(psk_set, n@)),
        None => None,
    }
}

/// Where a share without a target forwards to.
pub open spec fn default_target(port: u16) -> Seq<char> {
    "127.0.0.1:"@ + crate::text::decimal(port as nat)
}

/// What is shared, mapped and open.
pub struct Engine {
    pub shares: Vec<ShareRow>,
    pub mappings: Vec<Mapping>,
    pub tunnels: Vec<Tunnel>,
    pub invites: Vec<InviteRow>,
    pub next_id: u64,
}

impl View for Engine {
    type V = EngineModel;

    open spec fn view(&self) -> EngineModel {
        EngineModel {
            shares: crate::state::share_rows(self.shares@),
            mappings: mapping_models(self.mappings@),
            tunnels: tunnel_models(self.tunnels@),
            invites: crate::state::invite_models(self.invites@),
            next_id: self.next_id,
        }
    }
}

/// The connect string of an invitation.
pub fn invite_string(port: u16, udp: bool) -> (r: String)
    ensures
        r@ == invite_text(port, udp),
{
    let mut r = INVITE_PREFIX.to_owned();
    let digits = number(port as u64);
    r.append(digits.as_str());
    if udp {
        r.append(INVITE_UDP);
    }
    r
}

/// The port that a connect string invites to.
pub fn parse_invite(connect: &str) -> (r: Option<PortSpec>)
    ensures
        r == invited_to(connect@),
{
    match strip_prefix(connect, INVITE_PREFIX) {
        None => None,
        Some(rest) => {
            let (digits, udp) = match strip_suffix(rest, INVITE_UDP) {
                Some(d) => (d, true),
                None => (rest, false),
            };
            match parse_number(trim(digits), 10, 65535) {
                Some(port) => Some(PortSpec { port: port as u16, udp }),
                None => None,
            }
        },
    }
}

fn holds(v: &Vec<u64>, x: u64) -> (r: bool)
    ensures
        r == v@.contains(x),
{
    let mut i: usize = 0;
    while i < v.len()
        invariant
            i <= v@.len(),
            forall|j: int| 0 <= j < i ==> v@[j] != x,
        decreases v@.len() - i,
    {
        if v[i] == x {
            assert(v@[i as int] == x);
            return true;
        }
        i = i + 1;
    }
    false
}

/// Whether a peer may connect.
pub fn peer_allowed(sid: u64, allowlist: &Vec<u64>, friends: &Vec<u64>) -> (r: bool)
    ensures
        r == allowed(sid, allowlist@, friends@),
{
    if allowlist.len() > 0 {
        holds(allowlist, sid)
    } else {
        holds(friends, sid)
    }
}

/// Decides on a connection, and logs a refusal. A peer without a SteamID is
/// refused.
pub fn screen(sid: Option<u64>, allowlist: &Vec<u64>, friends: &Vec<u64>, lines: &mut Vec<String>)
    -> (r: bool)
    ensures
        r == admitted(sid, allowlist@, friends@),
        crate::text::texts(final(lines)@) == crate::text::texts(old(lines)@) + if r {
            Seq::empty()
        } else {
            seq![refusal(sid)]
        },
{
    let ok = match sid {
        Some(s) => peer_allowed(s, allowlist, friends),
        None => false,
    };
    if !ok {
        let who = match sid {
            Some(s) => number(s),
            None => String::new(),
        };
        lines.push(log::rejected(who.as_str()));
    }
    assert(crate::text::texts(lines@) =~= crate::text::texts(old(lines)@) + if ok {
        Seq::empty()
    } else {
        seq![
            log::rejected_text(
                match sid {
                    Some(s) => crate::text::decimal(s as nat),
                    None => Seq::empty(),
                },
            ),
        ]
    });
    ok
}

/// Adds a line to a log.
fn note(lines: &mut Vec<String>, line: String)
    ensures
        crate::text::texts(final(lines)@) == crate::text::texts(old(lines)@) + seq![line@],
{
    lines.push(line);
    assert(crate::text::texts(lines@) =~= crate::text::texts(old(lines)@) + seq![line@]);
}

impl Engine {
    pub fn new() -> (r: Engine)
        ensures
            well_formed(r@),
            r@ == (EngineModel {
                shares: Seq::empty(),
                mappings: Seq::empty(),
                tunnels: Seq::empty(),
                invites: Seq::empty(),
                next_id: 1,
            }),
    {
        let r = Engine {
            shares: Vec::new(),
            mappings: Vec::new(),
            tunnels: Vec::new(),
            invites: Vec::new(),
            next_id: 1,
        };
        assert(r@.shares =~= Seq::empty());
        assert(r@.mappings =~= Seq::empty());
        assert(r@.tunnels =~= Seq::empty());
        assert(r@.invites =~= Seq::empty());
        r
    }

    /// Gives out an id.
    fn take_id(&mut self) -> (id: u64)
        ensures
            id == old(self)@.next_id,
            final(self)@ == old(self)@.id_taken(),
    {
        let id: u64 = self.next_id;
        self.next_id = self.next_id.wrapping_add(1);
        id
    }

    /// Decides on a command to share a port: gives the share for which to open
    /// a listen socket, if one is to be opened.
    pub fn plan_share(
        &self,
        port: u16,
        udp: bool,
        target: Option<String>,
        lines: &mut Vec<String>,
    ) -> (r: Option<ShareRow>)
        ensures
            ({
                let plan = self@.share_plan(
                    port,
                    udp,
                    match target {
                        Some(t) => Some(t@),
                        None => None,
                    },
                );
                &&& match r {
                    Some(s) => plan.share == Some(s@),
                    None => plan.share is None,
                }
                &&& crate::text::texts(final(lines)@) == crate::text::texts(old(lines)@)
                    + plan.log
            }),
    {
        let ghost p = on_port(port);
        let ghost before = crate::text::texts(lines@);
        assert(before + Seq::<Seq<char>>::empty() =~= before);
        let mut i: usize = 0;
        while i < self.shares.len()
            invariant
                i <= self.shares@.len(),
                p == on_port(port),
                before == crate::text::texts(lines@),
                *lines == *old(lines),
                forall|j: int| 0 <= j < i ==> !p(#[trigger] self@.shares[j]),
            decreases self.shares@.len() - i,
        {
            assert(self@.shares[i as int] == self.shares@[i as int]@);
            if self.shares[i].port == port {
                proof {
                    crate::lists::lemma_first_where_is(self@.shares, p, i as int);
                }
                if self.shares[i].udp != udp {
                    note(lines, log::already_shared(port, self.shares[i].udp));
                }
                return None;
            }
            i = i + 1;
        }
        proof {
            crate::lists::lemma_first_where_is(self@.shares, p, i as int);
        }
        let target = match target {
            Some(t) => t,
            None => {
                let mut t = "127.0.0.1:".to_owned();
                let digits = number(port as u64);
                t.append(digits.as_str());
                t
            },
        };
        Some(ShareRow { port, udp, target })
    }

    /// Takes a share whose listen socket was opened, or could not be.
    pub fn share(&mut self, share: ShareRow, opened: bool, lines: &mut Vec<String>)
        ensures
            final(self)@ == old(self)@.on_share(share@, opened).engine,
            crate::text::texts(final(lines)@) == crate::text::texts(old(lines)@) + old(
                self,
            )@.on_share(share@, opened).log,
    {
        if opened {
            note(lines, log::sharing(share.port, share.udp, share.target.as_str()));
            self.shares.push(share);
            assert(self@.shares =~= old(self)@.shares.push(share@));
        } else {
            note(lines, log::listen_failed(share.port));
        }
    }

    /// Stops sharing a port, and ends the tunnels on it.
    pub fn unshare(&mut self, port: u16, udp: bool, lines: &mut Vec<String>)
        ensures
            final(self)@ == old(self)@.on_unshare(port, udp).engine,
            crate::text::texts(final(lines)@) == crate::text::texts(old(lines)@) + old(
                self,
            )@.on_unshare(port, udp).log,
    {
        let ghost was = self@;
        let mut all: Vec<ShareRow> = Vec::new();
        core::mem::swap(&mut all, &mut self.shares);
        let ghost p = not_shared_as(port, udp);
        let f = |s: &ShareRow| -> (b: bool)
            ensures
                b == p(s@),
            { !(s.port == port && s.udp == udp) };
        assert(crate::lists::views(all@) =~= was.shares);
        self.shares = keep_where(all, f, Ghost(p));
        assert(self@.shares =~= crate::lists::views(self.shares@));
        let mut i: usize = 0;
        while i < self.tunnels.len()
            invariant
                i <= self.tunnels@.len(),
                self.tunnels@.len() == was.tunnels.len(),
                self@ == (EngineModel {
                    shares: crate::lists::kept(was.shares, p),
                    tunnels: self@.tunnels,
                    ..was
                }),
                forall|j: int|
                    0 <= j < i ==> (#[trigger] self@.tunnels[j]) == unshared_tunnel(
                        was.tunnels[j],
                        port,
                        udp,
                    ),
                forall|j: int|
                    i <= j < was.tunnels.len() ==> (#[trigger] self@.tunnels[j])
                        == was.tunnels[j],
            decreases self.tunnels@.len() - i,
        {
            let ghost at = self@;
            assert(at.tunnels[i as int] == self.tunnels@[i as int]@);
            if self.tunnels[i].dir == Dir::In && self.tunnels[i].port == port
                && self.tunnels[i].udp == udp {
                self.tunnels[i].mark_dead(CloseReason::ShareRemoved);
            }
            assert(self@.tunnels =~= at.tunnels.update(
                i as int,
                unshared_tunnel(at.tunnels[i as int], port, udp),
            ));
            i = i + 1;
        }
        assert(self@.tunnels =~= was.unshared(port, udp).tunnels);
        note(lines, log::unshared(port));
    }
}

impl EngineModel {
    /// Only the shares whose listen socket was opened anew.
    pub open spec fn reshared(self, opened: Seq<bool>) -> EngineModel {
        EngineModel { shares: still_open(self.shares, opened), ..self }
    }
}

/// The shares at the positions that are marked.
pub open spec fn still_open(shares: Seq<ShareRowModel>, opened: Seq<bool>) -> Seq<ShareRowModel>
    decreases shares.len(),
{
    if shares.len() == 0 || opened.len() != shares.len() {
        Seq::empty()
    } else {
        let before = still_open(shares.drop_last(), opened.drop_last());
        if opened.last() {
            before.push(shares.last())
        } else {
            before
        }
    }
}

impl Engine {
    /// Maps a peer's UDP port. The local socket is bound and the tunnel opened
    /// later.
    pub fn connect_udp(
        &mut self,
        peer: u64,
        peer_name: String,
        remote_port: u16,
        local_port: u16,
        now: u64,
        lines: &mut Vec<String>,
    )
        ensures
            ({
                let s = old(self)@.on_connect_udp(
                    peer,
                    peer_name@,
                    remote_port,
                    local_port,
                    now,
                );
                &&& final(self)@ == s.engine
                &&& crate::text::texts(final(lines)@) == crate::text::texts(old(lines)@) + s.log
            }),
    {
        note(lines, log::mapping_udp(local_port, peer_name.as_str(), remote_port));
        let id: u64 = self.take_id();
        let m = Mapping {
            id,
            peer,
            peer_name,
            remote_port,
            local_port,
            udp: true,
            bound: false,
            next_spawn: now,
        };
        self.mappings.push(m);
        assert(self@.mappings =~= old(self)@.mappings.push(m@));
    }

    /// Maps a peer's TCP port, given whether the local port could be bound.
    pub fn connect_tcp(
        &mut self,
        peer: u64,
        peer_name: String,
        remote_port: u16,
        local_port: u16,
        bound: Result<(), String>,
        now: u64,
        lines: &mut Vec<String>,
    )
        ensures
            ({
                let s = old(self)@.on_connect_tcp(
                    peer,
                    peer_name@,
                    remote_port,
                    local_port,
                    crate::tunnel::attempt(bound),
                    now,
                );
                &&& final(self)@ == s.engine
                &&& crate::text::texts(final(lines)@) == crate::text::texts(old(lines)@) + s.log
            }),
    {
        match bound {
            Ok(_) => {
                note(lines, log::mapping_tcp(local_port, peer_name.as_str(), remote_port));
                let id: u64 = self.take_id();
                let m = Mapping {
                    id,
                    peer,
                    peer_name,
                    remote_port,
                    local_port,
                    udp: false,
                    bound: true,
                    next_spawn: now,
                };
                self.mappings.push(m);
                assert(self@.mappings =~= old(self)@.mappings.push(m@));
            },
            Err(e) => note(lines, log::bind_failed(local_port, e.as_str())),
        }
    }

    /// Removes a mapping, and ends its streams.
    pub fn stop_mapping(&mut self, id: u64, lines: &mut Vec<String>)
        ensures
            final(self)@ == old(self)@.on_stop_mapping(id).engine,
            crate::text::texts(final(lines)@) == crate::text::texts(old(lines)@) + old(
                self,
            )@.on_stop_mapping(id).log,
    {
        let ghost was = self@;
        let mut i: usize = 0;
        while i < self.tunnels.len()
            invariant
                i <= self.tunnels@.len(),
                self.tunnels@.len() == was.tunnels.len(),
                self@ == (EngineModel { tunnels: self@.tunnels, ..was }),
                forall|j: int|
                    0 <= j < i ==> (#[trigger] self@.tunnels[j]) == unmapped_tunnel(
                        was.tunnels[j],
                        id,
                    ),
                forall|j: int|
                    i <= j < was.tunnels.len() ==> (#[trigger] self@.tunnels[j])
                        == was.tunnels[j],
            decreases self.tunnels@.len() - i,
        {
            let ghost at = self@;
            assert(at.tunnels[i as int] == self.tunnels@[i as int]@);
            end_streams(&mut self.tunnels[i], id);
            assert(self@.tunnels =~= at.tunnels.update(
                i as int,
                unmapped_tunnel(at.tunnels[i as int], id),
            ));
            i = i + 1;
        }
        assert(self@.tunnels =~= was.unmapped(id).tunnels);
        let mut all: Vec<Mapping> = Vec::new();
        core::mem::swap(&mut all, &mut self.mappings);
        let ghost p = other_mapping(id);
        let f = |m: &Mapping| -> (b: bool)
            ensures
                b == p(m@),
            { m.id != id };
        assert(crate::lists::views(all@) =~= was.mappings);
        self.mappings = keep_where(all, f, Ghost(p));
        assert(self@.mappings =~= crate::lists::views(self.mappings@));
        note(lines, log::mapping_removed(id));
    }

    /// Drops an invitation.
    pub fn dismiss_invite(&mut self, id: u64)
        ensures
            final(self)@ == old(self)@.dismissed(id),
    {
        let ghost was = self@;
        let mut all: Vec<InviteRow> = Vec::new();
        core::mem::swap(&mut all, &mut self.invites);
        let ghost p = other_invite(id);
        let f = |i: &InviteRow| -> (b: bool)
            ensures
                b == p(i@),
            { i.id != id };
        assert(crate::lists::views(all@) =~= was.invites);
        self.invites = keep_where(all, f, Ghost(p));
        assert(self@.invites =~= crate::lists::views(self.invites@));
    }

    /// Takes an invitation from a friend; a connect string that is none of
    /// ours is ignored.
    pub fn invited(
        &mut self,
        friend: u64,
        from_name: String,
        connect: &str,
        lines: &mut Vec<String>,
    )
        ensures
            ({
                let s = old(self)@.on_invite(friend, from_name@, connect@);
                &&& final(self)@ == s.engine
                &&& crate::text::texts(final(lines)@) == crate::text::texts(old(lines)@) + s.log
            }),
            invited_to(connect@) is None ==> final(lines)@ == old(lines)@,
    {
        let to = match parse_invite(connect) {
            Some(to) => to,
            None => {
                assert(crate::text::texts(lines@) + Seq::<Seq<char>>::empty()
                    =~= crate::text::texts(lines@));
                return;
            },
        };
        let ghost was = self@;
        let from = number(friend);
        note(lines, log::invited(from_name.as_str(), to.port));
        let mut all: Vec<InviteRow> = Vec::new();
        core::mem::swap(&mut all, &mut self.invites);
        let ghost p = not_from(from@, to.port, to.udp);
        let port: u16 = to.port;
        let udp = to.udp;
        let f = |i: &InviteRow| -> (b: bool)
            ensures
                b == p(i@),
            { !(same(i.from.as_str(), from.as_str()) && i.port == port && i.udp == udp) };
        assert(crate::lists::views(all@) =~= was.invites);
        self.invites = keep_where(all, f, Ghost(p));
        let ghost left = self@.invites;
        assert(left =~= crate::lists::views(self.invites@));
        let id: u64 = self.take_id();
        let row = InviteRow { id, from, from_name, port, udp };
        self.invites.push(row);
        assert(self@.invites =~= left.push(row@));
    }

    /// After a change of the send rate: keeps the shares whose listen socket
    /// was opened anew.
    pub fn reshare(&mut self, opened: &Vec<bool>, lines: &mut Vec<String>)
        requires
            opened@.len() == old(self)@.shares.len(),
        ensures
            final(self)@ == old(self)@.on_reshare(opened@).engine,
            crate::text::texts(final(lines)@) == crate::text::texts(old(lines)@) + old(
                self,
            )@.on_reshare(opened@).log,
    {
        let ghost was = self@;
        let mut all: Vec<ShareRow> = Vec::new();
        core::mem::swap(&mut all, &mut self.shares);
        let ghost list = crate::state::share_rows(all@);
        let mut left: Vec<ShareRow> = Vec::new();
        let count: usize = opened.len();
        let mut i: usize = 0;
        assert(crate::state::share_rows(left@) =~= Seq::empty());
        for s in it: all
            invariant
                it.seq() == all@,
                list == crate::state::share_rows(all@),
                opened@.len() == all@.len(),
                count == opened@.len(),
                i == it.index(),
                crate::state::share_rows(left@) == still_open(
                    list.take(i as int),
                    opened@.take(i as int),
                ),
        {
            proof {
                assert(list.take(i + 1).drop_last() =~= list.take(i as int));
                assert(opened@.take(i + 1).drop_last() =~= opened@.take(i as int));
                assert(list.take(i + 1).last() == s@);
            }
            let ghost had = crate::state::share_rows(left@);
            if opened[i] {
                left.push(s);
                assert(crate::state::share_rows(left@) =~= had.push(s@));
            }
            i = i + 1;
        }
        assert(list.take(i as int) =~= list);
        assert(opened@.take(i as int) =~= opened@);
        self.shares = left;
        note(lines, log::SEND_RATE_UPDATED.to_owned());
    }

    /// Takes a peer that connected on a share, given the challenge for it:
    /// gives the greeting to send. Without a challenge the peer is dropped.
    pub fn connected(
        &mut self,
        share: usize,
        peer: u64,
        peer_name: &str,
        nonce: Option<[u8; 32]>,
        psk_set: bool,
        now: u64,
        lines: &mut Vec<String>,
    ) -> (r: Option<Vec<u8>>)
        requires
            share < old(self)@.shares.len(),
        ensures
            match r {
                Some(h) => greeting(nonce, psk_set) == Some(h@),
                None => greeting(nonce, psk_set) is None,
            },
            ({
                let s = old(self)@.on_peer(share as int, peer, peer_name@, nonce, now);
                &&& final(self)@ == s.engine
                &&& crate::text::texts(final(lines)@) == crate::text::texts(old(lines)@) + s.log
            }),
    {
        let n = match nonce {
            Some(n) => n,
            None => {
                note(lines, log::NO_RANDOMNESS.to_owned());
                return None;
            },
        };
        let greeting = hello(psk_set, &n);
        let port: u16 = self.shares[share].port;
        note(lines, log::incoming(peer_name, port));
        let udp = self.shares[share].udp;
        let target = self.shares[share].target.clone();
        let id: u64 = self.take_id();
        let t = new_tunnel(id, Dir::In, peer, port, udp, ConnState::AwaitAuth, nonce, target, now);
        self.tunnels.push(t);
        assert(self@.tunnels =~= old(self)@.tunnels.push(t@));
        Some(greeting)
    }

    /// Takes a peer that connected on a share: greets it with a fresh random
    /// challenge, or drops it if there is none to be had.
    pub fn greet(
        &mut self,
        share: usize,
        peer: u64,
        peer_name: &str,
        psk_set: bool,
        now: u64,
        lines: &mut Vec<String>,
    ) -> (r: Option<Vec<u8>>)
        requires
            share < old(self)@.shares.len(),
        ensures
            match r {
                Some(h) => exists|n: [u8; 32]|
                    h@ == #[trigger] crate::protocol::hello_bytes(psk_set, n@) && final(self)@
                        == old(self)@.with_incoming(
                        old(self)@.shares[share as int],
                        peer,
                        n,
                        now,
                    ),
                None => final(self)@ == old(self)@,
            },
            crate::text::texts(final(lines)@) == crate::text::texts(old(lines)@) + seq![
                match r {
                    Some(_) => log::incoming_text(
                        peer_name@,
                        old(self)@.shares[share as int].port,
                    ),
                    None => log::NO_RANDOMNESS@,
                },
            ],
    {
        let nonce = fresh_nonce();
        let r = self.connected(share, peer, peer_name, nonce, psk_set, now, lines);
        assert(r matches Some(h) ==> h@ == crate::protocol::hello_bytes(psk_set, nonce->0@));
        r
    }

    /// Takes a peer that left a shared port.
    pub fn disconnected(&mut self, peer: u64, port: u16)
        ensures
            final(self)@ == old(self)@.left(peer, port),
    {
        let ghost was = self@;
        let mut i: usize = 0;
        while i < self.tunnels.len()
            invariant
                i <= self.tunnels@.len(),
                self.tunnels@.len() == was.tunnels.len(),
                self@ == (EngineModel { tunnels: self@.tunnels, ..was }),
                forall|j: int|
                    0 <= j < i ==> (#[trigger] self@.tunnels[j]) == left_tunnel(
                        was.tunnels[j],
                        peer,
                        port,
                    ),
                forall|j: int|
                    i <= j < was.tunnels.len() ==> (#[trigger] self@.tunnels[j])
                        == was.tunnels[j],
            decreases self.tunnels@.len() - i,
        {
            let ghost at = self@;
            assert(at.tunnels[i as int] == self.tunnels@[i as int]@);
            if self.tunnels[i].dir == Dir::In && self.tunnels[i].peer == peer
                && self.tunnels[i].port == port && self.tunnels[i].dead.is_none() {
                self.tunnels[i].mark_dead(CloseReason::PeerDisconnected);
            }
            assert(self@.tunnels =~= at.tunnels.update(
                i as int,
                left_tunnel(at.tunnels[i as int], peer, port),
            ));
            i = i + 1;
        }
        assert(self@.tunnels =~= was.left(peer, port).tunnels);
    }
}

/// Ends the streams of a mapping.
fn end_streams(t: &mut Tunnel, id: u64)
    ensures
        final(t)@ == unmapped_tunnel(old(t)@, id),
{
    let ghost was = t@;
    let mut i: usize = 0;
    while i < t.streams.len()
        invariant
            i <= t.streams@.len(),
            t.streams@.len() == was.streams.len(),
            t@ == (TunnelModel { streams: t@.streams, ..was }),
            forall|j: int|
                0 <= j < i ==> (#[trigger] t@.streams[j]) == unmapped_stream(was.streams[j], id),
            forall|j: int|
                i <= j < was.streams.len() ==> (#[trigger] t@.streams[j]) == was.streams[j],
        decreases t.streams@.len() - i,
    {
        let ghost at = t@;
        assert(at.streams[i as int] == t.streams@[i as int]@);
        if let Some(m) = t.streams[i].mapping_id {
            if m == id {
                t.streams[i].mark_dead(CloseReason::MappingRemoved);
            }
        }
        assert(t@.streams =~= at.streams.update(
            i as int,
            unmapped_stream(at.streams[i as int], id),
        ));
        i = i + 1;
    }
    assert(t@.streams =~= unmapped_tunnel(was, id).streams);
}

/// Live outgoing tunnels to a peer's port.
pub open spec fn route_to(peer: u64, port: u16, udp: bool) -> spec_fn(TunnelModel) -> bool {
    |t: TunnelModel| t.leads_to(peer, port, udp)
}

/// Tunnels that have ended.
pub open spec fn has_ended() -> spec_fn(TunnelModel) -> bool {
    |t: TunnelModel| t.dead is Some
}

/// Live streams of a mapping for the datagrams from an address.
pub open spec fn flow_from(id: u64, src: FlowAddr) -> spec_fn(StreamModel) -> bool {
    |st: StreamModel|
        st.dead is None && st.mapping_id == Some(id) && st.local == Some(
            LocalSock::Udp { peer: Some(src) },
        )
}

/// Streams of a mapping.
pub open spec fn of_mapping(id: u64) -> spec_fn(StreamModel) -> bool {
    |st: StreamModel| st.mapping_id == Some(id)
}

/// When to try again what was tried at `now`.
pub open spec fn retry_time(now: u64) -> u64 {
    if now + UDP_RESPAWN_DELAY > u64::MAX {
        u64::MAX
    } else {
        (now + UDP_RESPAWN_DELAY) as u64
    }
}

/// The line for a tunnel that has ended: none if it only idled and was never
/// used.
pub open spec fn end_log(t: TunnelModel) -> Seq<Seq<char>> {
    match t.dead {
        Some(why) => if why != CloseReason::Idle || t.streams_served > 0 {
            seq![log::tunnel_closed_text(t.id, crate::stream::reason_text(why))]
        } else {
            Seq::empty()
        },
        None => Seq::empty(),
    }
}

impl EngineModel {
    /// The live outgoing tunnel to a peer's port.
    pub open spec fn route(self, peer: u64, port: u16, udp: bool) -> Option<int> {
        crate::lists::first_where(self.tunnels, route_to(peer, port, udp))
    }

    pub open spec fn with_tunnel_at(self, i: int, t: TunnelModel) -> EngineModel {
        EngineModel { tunnels: self.tunnels.update(i, t), ..self }
    }

    pub open spec fn with_mapping_at(self, i: int, m: MappingModel) -> EngineModel {
        EngineModel { mappings: self.mappings.update(i, m), ..self }
    }

    /// Whether to bind the local socket of a mapping now.
    pub open spec fn bind_due(self, i: int, now: u64) -> bool {
        let m = self.mappings[i];
        m.udp && !m.bound && now >= m.next_spawn
    }

    /// Whether to open a tunnel for a UDP mapping now, so that its handshake
    /// is done when the local program starts talking.
    pub open spec fn route_due(self, i: int, now: u64) -> bool {
        let m = self.mappings[i];
        m.udp && m.bound && self.route(m.peer, m.remote_port, true) is None && now
            >= m.next_spawn
    }

    pub open spec fn tried(self, i: int, now: u64) -> EngineModel {
        self.with_mapping_at(
            i,
            MappingModel { next_spawn: retry_time(now), ..self.mappings[i] },
        )
    }

    /// After an attempt for a UDP mapping, if there was one.
    pub open spec fn after_attempt(self, i: int, made: bool, now: u64) -> EngineModel {
        if made {
            self.tried(i, now)
        } else {
            self
        }
    }

    /// After the local socket of a UDP mapping was bound, or could not be.
    pub open spec fn on_bound(self, i: int, bound: Result<(), Seq<char>>) -> EngineStep {
        match bound {
            Ok(_) => EngineStep {
                engine: self.with_mapping_at(
                    i,
                    MappingModel { bound: true, ..self.mappings[i] },
                ),
                log: Seq::empty(),
            },
            Err(e) => self.noting(log::bind_udp_failed_text(self.mappings[i].local_port, e)),
        }
    }

    /// With an outgoing tunnel to a peer's port, and where it is: the one that
    /// is there, or a new one if a connection could be started.
    pub open spec fn ensured(self, peer: u64, port: u16, udp: bool, started: bool, now: u64) -> (
        EngineModel,
        Option<int>,
    ) {
        match self.route(peer, port, udp) {
            Some(i) => (self, Some(i)),
            None => if started {
                (self.with_outgoing(peer, port, udp, now), Some(self.tunnels.len() as int))
            } else {
                (self, None)
            },
        }
    }

    /// After a local program connected to the mapping at `mi`, on the tunnel at
    /// `ti`.
    pub open spec fn on_accept(self, mi: int, ti: int, now: u64) -> EngineStep {
        let m = self.mappings[mi];
        let t = self.tunnels[ti];
        EngineStep {
            engine: self.with_tunnel_at(ti, t.with_local_stream(m.id, LocalSock::Tcp, now)),
            log: if t.state == ConnState::Active {
                Seq::empty()
            } else {
                seq![log::opening_text(m.peer_name, m.remote_port)]
            },
        }
    }

    /// Without the first tunnel that has ended, and that tunnel.
    pub open spec fn reaped(self) -> (EngineStep, Option<TunnelModel>) {
        match crate::lists::first_where(self.tunnels, has_ended()) {
            Some(i) => (
                EngineStep {
                    engine: EngineModel { tunnels: self.tunnels.remove(i), ..self },
                    log: end_log(self.tunnels[i]),
                },
                Some(self.tunnels[i]),
            ),
            None => (EngineStep { engine: self, log: Seq::empty() }, None),
        }
    }

    /// Whether to read one more datagram from the local socket of a mapping
    /// after `done` of them in this turn: up to its share, and none while a
    /// frame waits on the tunnel that would carry it.
    pub open spec fn reads_datagram(self, i: int, done: int) -> bool {
        let m = self.mappings[i];
        done < MAX_DGRAMS_PER_TICK && match self.route(m.peer, m.remote_port, true) {
            Some(ti) => self.tunnels[ti].pending.len() == 0,
            None => true,
        }
    }

    /// Where a datagram from a local address goes: to the flow of that
    /// address, which is opened if there is none and the mapping may have one
    /// more. Without a tunnel the datagram is lost.
    pub open spec fn on_datagram(self, i: int, src: FlowAddr, now: u64) -> (
        EngineModel,
        Option<(int, int)>,
    ) {
        let m = self.mappings[i];
        match self.route(m.peer, m.remote_port, true) {
            None => (self, None),
            Some(ti) => {
                let t = self.tunnels[ti];
                match crate::lists::first_where(t.streams, flow_from(m.id, src)) {
                    Some(si) => (self, Some((ti, si))),
                    None => if crate::lists::kept(t.streams, of_mapping(m.id)).len()
                        >= MAX_UDP_FLOWS {
                        (self, None)
                    } else {
                        (
                            self.with_tunnel_at(
                                ti,
                                t.with_local_stream(
                                    m.id,
                                    LocalSock::Udp { peer: Some(src) },
                                    now,
                                ),
                            ),
                            Some((ti, t.streams.len() as int)),
                        )
                    },
                }
            },
        }
    }
}

/// Where a datagram goes.
pub struct Flow {
    pub tunnel: usize,
    pub stream: usize,
    /// The frame to try first, if the flow was opened for the datagram.
    pub open: Option<Vec<u8>>,
}

fn find_flow(t: &Tunnel, id: u64, src: FlowAddr) -> (r: Option<usize>)
    ensures
        match r {
            Some(i) => crate::lists::first_where(t@.streams, flow_from(id, src)) == Some(
                i as int,
            ) && i < t@.streams.len(),
            None => crate::lists::first_where(t@.streams, flow_from(id, src)) is None,
        },
{
    let ghost p = flow_from(id, src);
    let mut i: usize = 0;
    while i < t.streams.len()
        invariant
            i <= t.streams@.len(),
            p == flow_from(id, src),
            forall|j: int| 0 <= j < i ==> !p(#[trigger] t@.streams[j]),
        decreases t.streams@.len() - i,
    {
        let st = &t.streams[i];
        assert(t@.streams[i as int] == st@);
        let mine = match st.mapping_id {
            Some(m) => m == id,
            None => false,
        };
        let from = match st.local {
            Some(LocalSock::Udp { peer: Some(a) }) => a == src,
            _ => false,
        };
        if st.dead.is_none() && mine && from {
            proof {
                crate::lists::lemma_first_where_is(t@.streams, p, i as int);
            }
            return Some(i);
        }
        i = i + 1;
    }
    proof {
        crate::lists::lemma_first_where_is(t@.streams, p, i as int);
    }
    None
}

fn count_flows(t: &Tunnel, id: u64) -> (n: usize)
    ensures
        n == crate::lists::kept(t@.streams, of_mapping(id)).len(),
{
    let mut n: usize = 0;
    let mut i: usize = 0;
    let ghost all = t@.streams;
    while i < t.streams.len()
        invariant
            n <= i <= t.streams@.len(),
            all == t@.streams,
            n == crate::lists::kept(all.take(i as int), of_mapping(id)).len(),
        decreases t.streams@.len() - i,
    {
        proof {
            assert(all.take(i + 1).drop_last() =~= all.take(i as int));
            assert(all.take(i + 1).last() == t.streams@[i as int]@);
        }
        let mine = match t.streams[i].mapping_id {
            Some(m) => m == id,
            None => false,
        };
        if mine {
            n = n + 1;
        }
        i = i + 1;
    }
    assert(all.take(i as int) =~= all);
    n
}

impl Engine {
    /// The live outgoing tunnel to a peer's port.
    pub fn route(&self, peer: u64, port: u16, udp: bool) -> (r: Option<usize>)
        ensures
            match r {
                Some(i) => self@.route(peer, port, udp) == Some(i as int) && i
                    < self@.tunnels.len(),
                None => self@.route(peer, port, udp) is None,
            },
    {
        let ghost p = route_to(peer, port, udp);
        let mut i: usize = 0;
        while i < self.tunnels.len()
            invariant
                i <= self.tunnels@.len(),
                p == route_to(peer, port, udp),
                forall|j: int| 0 <= j < i ==> !p(#[trigger] self@.tunnels[j]),
            decreases self.tunnels@.len() - i,
        {
            assert(self@.tunnels[i as int] == self.tunnels@[i as int]@);
            if self.tunnels[i].is_route(peer, port, udp) {
                proof {
                    crate::lists::lemma_first_where_is(self@.tunnels, p, i as int);
                }
                return Some(i);
            }
            i = i + 1;
        }
        proof {
            crate::lists::lemma_first_where_is(self@.tunnels, p, i as int);
        }
        None
    }

    /// The outgoing tunnel to a peer's port: the one that is there, or a new
    /// one, given whether a connection for it could be started. Tells where it
    /// is.
    pub fn ensure_out_tunnel(
        &mut self,
        peer: u64,
        port: u16,
        udp: bool,
        started: bool,
        now: u64,
    ) -> (r: Option<usize>)
        ensures
            ({
                let (e, place) = old(self)@.ensured(peer, port, udp, started, now);
                &&& final(self)@ == e
                &&& match r {
                    Some(k) => place == Some(k as int),
                    None => place is None,
                }
            }),
    {
        match self.route(peer, port, udp) {
            Some(i) => Some(i),
            None => {
                if started {
                    let at: usize = self.tunnels.len();
                    let id: u64 = self.take_id();
                    let t = new_tunnel(
                        id,
                        Dir::Out,
                        peer,
                        port,
                        udp,
                        ConnState::AwaitHello,
                        None,
                        String::new(),
                        now,
                    );
                    self.tunnels.push(t);
                    assert(self@.tunnels =~= old(self)@.tunnels.push(t@));
                    assert(self@ =~= old(self)@.with_outgoing(peer, port, udp, now));
                    Some(at)
                } else {
                    None
                }
            },
        }
    }

    /// Puts off the next attempt for a UDP mapping.
    fn put_off(&mut self, i: usize, now: u64)
        requires
            i < old(self)@.mappings.len(),
        ensures
            final(self)@ == old(self)@.tried(i as int, now),
    {
        let next: u64 = if now > u64::MAX - UDP_RESPAWN_DELAY {
            u64::MAX
        } else {
            now + UDP_RESPAWN_DELAY
        };
        self.mappings[i].next_spawn = next;
        assert(self@.mappings =~= old(self)@.tried(i as int, now).mappings);
    }

    /// Whether to bind the local socket of the mapping at `i` now.
    pub fn begin_bind(&mut self, i: usize, now: u64) -> (r: bool)
        requires
            i < old(self)@.mappings.len(),
        ensures
            r == old(self)@.bind_due(i as int, now),
            final(self)@ == old(self)@.after_attempt(i as int, r, now),
    {
        assert(self@.mappings[i as int] == self.mappings@[i as int]@);
        let due = self.mappings[i].udp && !self.mappings[i].bound && now
            >= self.mappings[i].next_spawn;
        if due {
            self.put_off(i, now);
        }
        due
    }

    /// Takes the outcome of binding the local socket of the mapping at `i`.
    pub fn end_bind(&mut self, i: usize, bound: Result<(), String>, lines: &mut Vec<String>)
        requires
            i < old(self)@.mappings.len(),
        ensures
            ({
                let s = old(self)@.on_bound(i as int, crate::tunnel::attempt(bound));
                &&& final(self)@ == s.engine
                &&& crate::text::texts(final(lines)@) == crate::text::texts(old(lines)@) + s.log
            }),
            bound is Ok ==> final(lines)@ == old(lines)@,
    {
        assert(self@.mappings[i as int] == self.mappings@[i as int]@);
        match bound {
            Ok(_) => {
                let ghost m = self@.mappings[i as int];
                assert(crate::text::texts(lines@) + Seq::<Seq<char>>::empty()
                    =~= crate::text::texts(lines@));
                self.mappings[i].bound = true;
                assert(self@.mappings =~= old(self)@.mappings.update(
                    i as int,
                    MappingModel { bound: true, ..m },
                ));
            },
            Err(e) => note(lines, log::bind_udp_failed(self.mappings[i].local_port, e.as_str())),
        }
    }

    /// Whether to open a tunnel for the UDP mapping at `i` now.
    pub fn begin_route(&mut self, i: usize, now: u64) -> (r: bool)
        requires
            i < old(self)@.mappings.len(),
        ensures
            r == old(self)@.route_due(i as int, now),
            final(self)@ == old(self)@.after_attempt(i as int, r, now),
    {
        assert(self@.mappings[i as int] == self.mappings@[i as int]@);
        let m = &self.mappings[i];
        let due = m.udp && m.bound && self.route(m.peer, m.remote_port, true).is_none() && now
            >= m.next_spawn;
        if due {
            self.put_off(i, now);
        }
        due
    }

    /// Whether to read one more datagram from the local socket of the mapping
    /// at `i` after `done` of them in this turn.
    pub fn reads_datagram(&self, i: usize, done: usize) -> (r: bool)
        requires
            i < self@.mappings.len(),
        ensures
            r == self@.reads_datagram(i as int, done as int),
    {
        assert(self@.mappings[i as int] == self.mappings@[i as int]@);
        let m = &self.mappings[i];
        done < MAX_DGRAMS_PER_TICK && match self.route(m.peer, m.remote_port, true) {
            Some(ti) => {
                assert(self@.tunnels[ti as int] == self.tunnels@[ti as int]@);
                self.tunnels[ti].pending.len() == 0
            },
            None => true,
        }
    }

    /// Finds or opens the flow for a datagram that arrived on the local socket
    /// of the mapping at `i`; none if the datagram is lost.
    pub fn dispatch(&mut self, i: usize, src: FlowAddr, now: u64) -> (r: Option<Flow>)
        requires
            i < old(self)@.mappings.len(),
        ensures
            ({
                let (e, place) = old(self)@.on_datagram(i as int, src, now);
                &&& final(self)@ == e
                &&& match r {
                    Some(f) => place == Some((f.tunnel as int, f.stream as int)) && f.tunnel
                        < e.tunnels.len() && f.stream < e.tunnels[f.tunnel as int].streams.len()
                        && match f.open {
                        Some(o) => {
                            let t = old(self)@.tunnels[f.tunnel as int];
                            e != old(self)@ && t.opening_to_try() == Some(o@)
                        },
                        None => {
                            let t = old(self)@.tunnels[f.tunnel as int];
                            f.stream < t.streams.len() || t.opening_to_try() is None
                        },
                    },
                    None => place is None,
                }
            }),
    {
        assert(self@.mappings[i as int] == self.mappings@[i as int]@);
        let id: u64 = self.mappings[i].id;
        let ti: usize = match self.route(
            self.mappings[i].peer,
            self.mappings[i].remote_port,
            true,
        ) {
            Some(ti) => ti,
            None => return None,
        };
        assert(self@.tunnels[ti as int] == self.tunnels@[ti as int]@);
        match find_flow(&self.tunnels[ti], id, src) {
            Some(si) => Some(Flow { tunnel: ti, stream: si, open: None }),
            None => {
                if count_flows(&self.tunnels[ti], id) >= MAX_UDP_FLOWS {
                    return None;
                }
                let ghost was = self@;
                let ghost t = self@.tunnels[ti as int];
                let si: usize = self.tunnels[ti].streams.len();
                let open = self.tunnels[ti].open_stream(
                    id,
                    LocalSock::Udp { peer: Some(src) },
                    now,
                );
                proof {
                    let after = t.with_local_stream(id, LocalSock::Udp { peer: Some(src) }, now);
                    assert(self@.tunnels =~= was.tunnels.update(ti as int, after));
                    assert(after.streams.len() == t.streams.len() + 1);
                    assert(self@.tunnels[ti as int] != was.tunnels[ti as int]);
                }
                Some(Flow { tunnel: ti, stream: si, open })
            },
        }
    }

    /// Opens a stream for a local program that connected to the mapping at
    /// `mi`, on the tunnel at `ti`; gives the frame to try now, if any.
    pub fn accept_tcp(&mut self, mi: usize, ti: usize, now: u64, lines: &mut Vec<String>) -> (r:
        Option<Vec<u8>>)
        requires
            mi < old(self)@.mappings.len(),
            ti < old(self)@.tunnels.len(),
        ensures
            ({
                let s = old(self)@.on_accept(mi as int, ti as int, now);
                &&& final(self)@ == s.engine
                &&& match r {
                    Some(f) => old(self)@.tunnels[ti as int].opening_to_try() == Some(f@),
                    None => old(self)@.tunnels[ti as int].opening_to_try() is None,
                }
                &&& crate::text::texts(final(lines)@) == crate::text::texts(old(lines)@) + s.log
            }),
    {
        let ghost was = self@;
        let ghost t = self@.tunnels[ti as int];
        let ghost before = crate::text::texts(lines@);
        assert(before + Seq::<Seq<char>>::empty() =~= before);
        assert(self@.mappings[mi as int] == self.mappings@[mi as int]@);
        assert(t == self.tunnels@[ti as int]@);
        let id: u64 = self.mappings[mi].id;
        if self.tunnels[ti].state != ConnState::Active {
            note(
                lines,
                log::opening(self.mappings[mi].peer_name.as_str(), self.mappings[mi].remote_port),
            );
        }
        let r = self.tunnels[ti].open_stream(id, LocalSock::Tcp, now);
        assert(self@.tunnels =~= was.tunnels.update(
            ti as int,
            t.with_local_stream(id, LocalSock::Tcp, now),
        ));
        r
    }

    /// Removes the first tunnel that has ended, if there is one.
    pub fn reap(&mut self, lines: &mut Vec<String>) -> (r: Option<Tunnel>)
        ensures
            ({
                let (s, ended) = old(self)@.reaped();
                &&& final(self)@ == s.engine
                &&& match r {
                    Some(t) => ended == Some(t@),
                    None => ended is None && final(lines)@ == old(lines)@,
                }
                &&& crate::text::texts(final(lines)@) == crate::text::texts(old(lines)@) + s.log
            }),
    {
        let ghost p = has_ended();
        let mut i: usize = 0;
        while i < self.tunnels.len()
            invariant
                i <= self.tunnels@.len(),
                p == has_ended(),
                *self == *old(self),
                *lines == *old(lines),
                forall|j: int| 0 <= j < i ==> !p(#[trigger] self@.tunnels[j]),
            decreases self.tunnels@.len() - i,
        {
            assert(self@.tunnels[i as int] == self.tunnels@[i as int]@);
            if let Some(why) = self.tunnels[i].dead {
                proof {
                    crate::lists::lemma_first_where_is(self@.tunnels, p, i as int);
                }
                let ghost before = crate::text::texts(lines@);
                assert(before + Seq::<Seq<char>>::empty() =~= before);
                if why != CloseReason::Idle || self.tunnels[i].streams_served > 0 {
                    note(lines, log::tunnel_closed(self.tunnels[i].id, why.text()));
                }
                let t = self.tunnels.remove(i);
                assert(self@.tunnels =~= old(self)@.tunnels.remove(i as int));
                return Some(t);
            }
            i = i + 1;
        }
        proof {
            crate::lists::lemma_first_where_is(self@.tunnels, p, i as int);
            assert(crate::text::texts(lines@) + Seq::<Seq<char>>::empty()
                =~= crate::text::texts(lines@));
        }
        None
    }
}

/// An invitation that is sent is read as the port that it was sent for.
pub proof fn law_invite_round_trip(port: u16, udp: bool)
    ensures
        invited_to(invite_text(port, udp)) == Some(PortSpec { port, udp }),
{
    let d = crate::text::decimal(port as nat);
    let connect = invite_text(port, udp);
    crate::text::lemma_decimal_digits(port as nat);
    crate::text::lemma_trimmed_numeral(port as nat, Seq::empty());
    assert(d + Seq::<char>::empty() =~= d);
    crate::text::law_number_round_trip(port as nat, u16::MAX as nat);
    assert(connect.take(INVITE_PREFIX@.len() as int) =~= INVITE_PREFIX@);
    let rest = connect.skip(INVITE_PREFIX@.len() as int);
    if udp {
        assert(rest =~= d + INVITE_UDP@);
        assert(rest.skip(rest.len() - INVITE_UDP@.len()) =~= INVITE_UDP@);
        assert(rest.take(rest.len() - INVITE_UDP@.len()) =~= d);
    } else {
        assert(rest =~= d);
        reveal_strlit(":udp");
        assert(INVITE_UDP@.len() == 4 && INVITE_UDP@[3] == 'p');
        assert(crate::text::is_digit(d[d.len() - 1], 10));
        if d.len() >= 4 {
            assert(d.skip(d.len() - 4)[3] == d[d.len() - 1]);
        }
        assert(crate::text::without_suffix(d, INVITE_UDP@) is None);
    }
}

/// Who gets in: with an allowlist nobody else, without one no stranger.
pub proof fn law_gating(sid: u64, allowlist: Seq<u64>, friends: Seq<u64>)
    ensures
        allowlist.len() > 0 && !allowlist.contains(sid) ==> !allowed(sid, allowlist, friends),
        allowlist.len() == 0 && !friends.contains(sid) ==> !allowed(sid, allowlist, friends),
        allowlist.contains(sid) ==> allowed(sid, allowlist, friends),
        allowlist.len() == 0 && friends.contains(sid) ==> allowed(sid, allowlist, friends),
{
}

/// No port is shared twice.
pub open spec fn ports_distinct(shares: Seq<ShareRowModel>) -> bool {
    forall|i: int, j: int|
        0 <= i < j < shares.len() ==> (#[trigger] shares[i]).port != (#[trigger] shares[j]).port
}

proof fn lemma_kept_ports(shares: Seq<ShareRowModel>, p: spec_fn(ShareRowModel) -> bool)
    requires
        ports_distinct(shares),
    ensures
        ports_distinct(crate::lists::kept(shares, p)),
    decreases shares.len(),
{
    if shares.len() > 0 {
        let init = shares.drop_last();
        assert(ports_distinct(init)) by {
            assert forall|i: int, j: int| 0 <= i < j < init.len() implies (
            #[trigger] init[i]).port != (#[trigger] init[j]).port by {
                assert(init[i] == shares[i] && init[j] == shares[j]);
            }
        }
        lemma_kept_ports(init, p);
        crate::lists::lemma_kept(init, p);
        let k = crate::lists::kept(init, p);
        let r = crate::lists::kept(shares, p);
        assert forall|i: int, j: int| 0 <= i < j < r.len() implies (#[trigger] r[i]).port != (
        #[trigger] r[j]).port by {
            if j < k.len() {
                assert(k[i] == r[i] && k[j] == r[j]);
            } else {
                assert(k.contains(k[i]));
                let n = choose|n: int| 0 <= n < init.len() && init[n] == k[i];
                assert(shares[n] == r[i]);
                assert(shares[shares.len() - 1] == r[j]);
            }
        }
    }
}

proof fn lemma_still_open_ports(shares: Seq<ShareRowModel>, opened: Seq<bool>)
    requires
        ports_distinct(shares),
    ensures
        ports_distinct(still_open(shares, opened)),
        forall|x: ShareRowModel| #[trigger]
            still_open(shares, opened).contains(x) ==> shares.contains(x),
    decreases shares.len(),
{
    if shares.len() > 0 && opened.len() == shares.len() {
        let init = shares.drop_last();
        assert(ports_distinct(init)) by {
            assert forall|i: int, j: int| 0 <= i < j < init.len() implies (
            #[trigger] init[i]).port != (#[trigger] init[j]).port by {
                assert(init[i] == shares[i] && init[j] == shares[j]);
            }
        }
        lemma_still_open_ports(init, opened.drop_last());
        let k = still_open(init, opened.drop_last());
        let r = still_open(shares, opened);
        assert forall|x: ShareRowModel| #[trigger] r.contains(x) implies shares.contains(x) by {
            let i = choose|i: int| 0 <= i < r.len() && r[i] == x;
            if i < k.len() {
                assert(k[i] == x);
                assert(k.contains(x));
                let n = choose|n: int| 0 <= n < init.len() && init[n] == x;
                assert(shares[n] == x);
            } else {
                assert(shares[shares.len() - 1] == x);
            }
        }
        assert forall|i: int, j: int| 0 <= i < j < r.len() implies (#[trigger] r[i]).port != (
        #[trigger] r[j]).port by {
            if j < k.len() {
                assert(k[i] == r[i] && k[j] == r[j]);
            } else {
                assert(k[i] == r[i]);
                assert(k.contains(k[i]));
                let n = choose|n: int| 0 <= n < init.len() && init[n] == k[i];
                assert(shares[n] == r[i]);
                assert(shares[shares.len() - 1] == r[j]);
            }
        }
    }
}

/// However ports are shared, unshared and shared anew, no port is shared
/// twice; and a port that is not shared can be.
pub proof fn law_one_share_per_port(
    e: EngineModel,
    port: u16,
    udp: bool,
    target: Option<Seq<char>>,
    opened: Seq<bool>,
)
    requires
        ports_distinct(e.shares),
    ensures
        e.share_plan(port, udp, target).share matches Some(s) ==> ports_distinct(
            e.with_share(s).shares,
        ),
        ports_distinct(e.unshared(port, udp).shares),
        ports_distinct(e.reshared(opened).shares),
        e.share_plan(port, udp, target).share is Some <==> forall|i: int|
            0 <= i < e.shares.len() ==> (#[trigger] e.shares[i]).port != port,
{
    crate::lists::lemma_first_where(e.shares, on_port(port));
    lemma_kept_ports(e.shares, not_shared_as(port, udp));
    lemma_still_open_ports(e.shares, opened);
    if let Some(s) = e.share_plan(port, udp, target).share {
        let all = e.with_share(s).shares;
        assert forall|i: int, j: int| 0 <= i < j < all.len() implies (#[trigger] all[i]).port != (
        #[trigger] all[j]).port by {
            if j == e.shares.len() {
                assert(!on_port(port)(e.shares[i]));
            }
        }
    }
}

/// Removing a share ends the tunnels on it and touches no other; removing a
/// mapping ends its streams and touches no other.
pub proof fn law_removal_ends(e: EngineModel, port: u16, udp: bool, id: u64, i: int)
    requires
        0 <= i < e.tunnels.len(),
    ensures
        ({
            let t = e.tunnels[i];
            let u = e.unshared(port, udp).tunnels[i];
            if t.dir == Dir::In && t.port == port && t.udp == udp {
                u.dead is Some
            } else {
                u == t
            }
        }),
        forall|k: int|
            0 <= k < e.tunnels[i].streams.len() ==> {
                let st = e.tunnels[i].streams[k];
                let v = #[trigger] e.unmapped(id).tunnels[i].streams[k];
                if st.mapping_id == Some(id) {
                    v.dead is Some
                } else {
                    v == st
                }
            },
        forall|m: MappingModel| #[trigger]
            e.unmapped(id).mappings.contains(m) <==> e.mappings.contains(m) && m.id != id,
{
    crate::lists::lemma_kept(e.mappings, other_mapping(id));
}

/// No two live outgoing tunnels lead to the same port of the same peer.
pub open spec fn routes_distinct(e: EngineModel) -> bool {
    forall|i: int, j: int|
        0 <= i < j < e.tunnels.len() ==> {
            let a = #[trigger] e.tunnels[i];
            let b = #[trigger] e.tunnels[j];
            !(a.dead is None && a.dir == Dir::Out && b.leads_to(a.peer, a.port, a.udp))
        }
}

/// A connection to a peer's port reuses the tunnel that leads there: a second
/// one is only opened where there is none.
pub proof fn law_tunnel_reused(e: EngineModel, peer: u64, port: u16, udp: bool, now: u64)
    requires
        routes_distinct(e),
    ensures
        e.route(peer, port, udp) is None ==> routes_distinct(
            e.with_outgoing(peer, port, udp, now),
        ),
        e.route(peer, port, udp) is None ==> e.with_outgoing(peer, port, udp, now).route(
            peer,
            port,
            udp,
        ) == Some(e.tunnels.len() as int),
        e.route(peer, port, udp) matches Some(i) ==> 0 <= i < e.tunnels.len()
            && e.tunnels[i].leads_to(peer, port, udp),
{
    let p = route_to(peer, port, udp);
    crate::lists::lemma_first_where(e.tunnels, p);
    let w = e.with_outgoing(peer, port, udp, now);
    if e.route(peer, port, udp) is None {
        assert forall|j: int| 0 <= j < e.tunnels.len() implies !p(#[trigger] w.tunnels[j]) by {
            assert(w.tunnels[j] == e.tunnels[j]);
        }
        crate::lists::lemma_first_where_is(w.tunnels, p, e.tunnels.len() as int);
        assert forall|i: int, j: int| 0 <= i < j < w.tunnels.len() implies {
            let a = #[trigger] w.tunnels[i];
            let b = #[trigger] w.tunnels[j];
            !(a.dead is None && a.dir == Dir::Out && b.leads_to(a.peer, a.port, a.udp))
        } by {
            assert(w.tunnels[i] == e.tunnels[i]);
            if j == e.tunnels.len() {
                assert(!p(e.tunnels[i]));
            }
        }
    }
}

/// No friend has two invitations to the same port.
pub open spec fn invites_distinct(v: Seq<InviteModel>) -> bool {
    forall|i: int, j: int|
        0 <= i < j < v.len() ==> {
            let a = #[trigger] v[i];
            let b = #[trigger] v[j];
            !(a.from == b.from && a.port == b.port && a.udp == b.udp)
        }
}

proof fn lemma_kept_invites(v: Seq<InviteModel>, p: spec_fn(InviteModel) -> bool)
    requires
        invites_distinct(v),
    ensures
        invites_distinct(crate::lists::kept(v, p)),
    decreases v.len(),
{
    if v.len() > 0 {
        let init = v.drop_last();
        assert(invites_distinct(init)) by {
            assert forall|i: int, j: int| 0 <= i < j < init.len() implies {
                let a = #[trigger] init[i];
                let b = #[trigger] init[j];
                !(a.from == b.from && a.port == b.port && a.udp == b.udp)
            } by {
                assert(init[i] == v[i] && init[j] == v[j]);
            }
        }
        lemma_kept_invites(init, p);
        crate::lists::lemma_kept(init, p);
        let k = crate::lists::kept(init, p);
        let r = crate::lists::kept(v, p);
        assert forall|i: int, j: int| 0 <= i < j < r.len() implies {
            let a = #[trigger] r[i];
            let b = #[trigger] r[j];
            !(a.from == b.from && a.port == b.port && a.udp == b.udp)
        } by {
            if j < k.len() {
                assert(k[i] == r[i] && k[j] == r[j]);
            } else {
                assert(k[i] == r[i]);
                assert(k.contains(k[i]));
                let n = choose|n: int| 0 <= n < init.len() && init[n] == k[i];
                assert(v[n] == r[i]);
                assert(v[v.len() - 1] == r[j]);
            }
        }
    }
}

/// An invitation takes the place of an earlier one, so that no friend has two
/// to the same port; and it is there until it is dismissed.
pub proof fn law_one_invite(
    e: EngineModel,
    friend: u64,
    from_name: Seq<char>,
    to: PortSpec,
    id: u64,
)
    requires
        invites_distinct(e.invites),
    ensures
        invites_distinct(e.with_invite(friend, from_name, to).invites),
        invites_distinct(e.dismissed(id).invites),
        e.with_invite(friend, from_name, to).invites.last().port == to.port,
        forall|i: InviteModel| #[trigger]
            e.dismissed(id).invites.contains(i) <==> e.invites.contains(i) && i.id != id,
{
    let from = crate::text::decimal(friend as nat);
    let p = not_from(from, to.port, to.udp);
    lemma_kept_invites(e.invites, p);
    lemma_kept_invites(e.invites, other_invite(id));
    crate::lists::lemma_kept(e.invites, p);
    crate::lists::lemma_kept(e.invites, other_invite(id));
    let k = crate::lists::kept(e.invites, p);
    let r = e.with_invite(friend, from_name, to).invites;
    assert forall|i: int, j: int| 0 <= i < j < r.len() implies {
        let a = #[trigger] r[i];
        let b = #[trigger] r[j];
        !(a.from == b.from && a.port == b.port && a.udp == b.udp)
    } by {
        assert(k[i] == r[i]);
        if j < k.len() {
            assert(k[j] == r[j]);
        } else {
            assert(k.contains(k[i]));
            assert(p(k[i]));
        }
    }
}

/// How many streams of a tunnel belong to a mapping.
pub open spec fn flow_count(t: TunnelModel, id: u64) -> nat {
    crate::lists::kept(t.streams, of_mapping(id)).len()
}

/// However many local addresses send datagrams, a mapping never has more
/// flows on a tunnel than it may, and the flows of other tunnels stay.
pub proof fn law_flows_bounded(e: EngineModel, i: int, src: FlowAddr, now: u64, k: int)
    requires
        0 <= i < e.mappings.len(),
        0 <= k < e.tunnels.len(),
        flow_count(e.tunnels[k], e.mappings[i].id) <= MAX_UDP_FLOWS,
    ensures
        flow_count(e.on_datagram(i, src, now).0.tunnels[k], e.mappings[i].id) <= MAX_UDP_FLOWS,
        e.on_datagram(i, src, now).0.tunnels.len() == e.tunnels.len(),
{
    let m = e.mappings[i];
    crate::lists::lemma_first_where(e.tunnels, route_to(m.peer, m.remote_port, true));
    if let Some(ti) = e.route(m.peer, m.remote_port, true) {
        let t = e.tunnels[ti];
        let u = t.with_local_stream(m.id, LocalSock::Udp { peer: Some(src) }, now);
        assert(u.streams.drop_last() =~= t.streams);
    }
}

/// No local address has two live flows of a mapping on a tunnel.
pub open spec fn flows_distinct(t: TunnelModel, id: u64) -> bool {
    forall|src: FlowAddr, i: int, j: int|
        0 <= i < j < t.streams.len() ==> !(#[trigger] flow_from(id, src)(t.streams[i])
            && #[trigger] flow_from(id, src)(t.streams[j]))
}

/// Datagrams from one local address go to one flow: a second one is never
/// opened while the first lives, and a flow that is found is that address's.
pub proof fn law_one_flow_per_address(e: EngineModel, i: int, src: FlowAddr, now: u64, k: int)
    requires
        0 <= i < e.mappings.len(),
        0 <= k < e.tunnels.len(),
        flows_distinct(e.tunnels[k], e.mappings[i].id),
    ensures
        flows_distinct(e.on_datagram(i, src, now).0.tunnels[k], e.mappings[i].id),
        e.on_datagram(i, src, now).1 matches Some((ti, si)) ==> flow_from(
            e.mappings[i].id,
            src,
        )(e.on_datagram(i, src, now).0.tunnels[ti].streams[si]),
{
    let m = e.mappings[i];
    crate::lists::lemma_first_where(e.tunnels, route_to(m.peer, m.remote_port, true));
    if let Some(ti) = e.route(m.peer, m.remote_port, true) {
        let t = e.tunnels[ti];
        crate::lists::lemma_first_where(t.streams, flow_from(m.id, src));
        let u = t.with_local_stream(m.id, LocalSock::Udp { peer: Some(src) }, now);
        let n = t.streams.len() as int;
        if ti == k && crate::lists::first_where(t.streams, flow_from(m.id, src)) is None {
            assert forall|a: FlowAddr, p: int, q: int| 0 <= p < q < u.streams.len() implies !(
            #[trigger] flow_from(m.id, a)(u.streams[p]) && #[trigger] flow_from(m.id, a)(
                u.streams[q],
            )) by {
                assert(u.streams[p] == t.streams[p]);
                if q < n {
                    assert(u.streams[q] == t.streams[q]);
                    assert(!(flow_from(m.id, a)(t.streams[p]) && flow_from(m.id, a)(
                        t.streams[q],
                    )));
                } else if a == src {
                    assert(!flow_from(m.id, src)(t.streams[p]));
                }
            }
        }
    }
}

/// Every id is below the next one to be given out.
pub open spec fn ids_given_out(e: EngineModel) -> bool {
    &&& forall|i: int| 0 <= i < e.tunnels.len() ==> (#[trigger] e.tunnels[i]).id < e.next_id
    &&& forall|i: int| 0 <= i < e.mappings.len() ==> (#[trigger] e.mappings[i]).id < e.next_id
    &&& forall|i: int| 0 <= i < e.invites.len() ==> (#[trigger] e.invites[i]).id < e.next_id
}

/// Ids are not used twice, as long as they last: whatever is added gets one
/// that nothing else has.
pub proof fn law_ids_unique(
    e: EngineModel,
    share: ShareRowModel,
    peer: u64,
    name: Seq<char>,
    port: u16,
    udp: bool,
    nonce: [u8; 32],
    now: u64,
)
    requires
        ids_given_out(e),
        e.next_id < u64::MAX,
    ensures
        ids_given_out(e.with_mapping(peer, name, port, port, udp, now)),
        ids_given_out(e.with_incoming(share, peer, nonce, now)),
        ids_given_out(e.with_outgoing(peer, port, udp, now)),
        ids_given_out(e.with_invite(peer, name, PortSpec { port, udp })),
{
    let from = crate::text::decimal(peer as nat);
    let p = not_from(from, port, udp);
    crate::lists::lemma_kept(e.invites, p);
    let k = crate::lists::kept(e.invites, p);
    let w = e.with_invite(peer, name, PortSpec { port, udp });
    assert forall|i: int| 0 <= i < w.invites.len() implies (#[trigger] w.invites[i]).id
        < w.next_id by {
        if i < k.len() {
            assert(k[i] == w.invites[i]);
            assert(k.contains(k[i]));
            let n = choose|n: int| 0 <= n < e.invites.len() && e.invites[n] == k[i];
            assert(e.invites[n].id < e.next_id);
        }
    }
}

/// Every stream id is below the next one to be given out.
pub open spec fn stream_ids_given_out(t: TunnelModel) -> bool {
    forall|i: int| 0 <= i < t.streams.len() ==> (#[trigger] t.streams[i]).id < t.next_stream_id
}

/// A local program that connects gets a stream id that no other stream of the
/// tunnel has, as long as they last.
pub proof fn law_stream_ids_unique(t: TunnelModel, mapping_id: u64, local: LocalSock, now: u64)
    requires
        stream_ids_given_out(t),
        t.next_stream_id < u32::MAX,
    ensures
        stream_ids_given_out(t.with_local_stream(mapping_id, local, now)),
        !t.has_stream(t.local_stream(mapping_id, local, now).id),
{
    let sid = t.next_stream_id;
    crate::lists::lemma_first_where(t.streams, crate::tunnel::with_id(sid));
    let w = t.with_local_stream(mapping_id, local, now);
    assert forall|i: int| 0 <= i < w.streams.len() implies (#[trigger] w.streams[i]).id
        < w.next_stream_id by {
        if i < t.streams.len() {
            assert(w.streams[i] == t.streams[i]);
        }
    }
}

/// What an engine keeps to: no port is shared twice, no friend has two
/// invitations to the same port, and no two live outgoing tunnels lead to the
/// same port of the same peer.
pub open spec fn well_formed(e: EngineModel) -> bool {
    &&& ports_distinct(e.shares)
    &&& invites_distinct(e.invites)
    &&& routes_distinct(e)
}

proof fn lemma_routes_kept(e: EngineModel, f: EngineModel)
    requires
        routes_distinct(e),
        f.tunnels.len() == e.tunnels.len(),
        forall|i: int|
            0 <= i < e.tunnels.len() ==> crate::laws::continues(
                e.tunnels[i],
                #[trigger] f.tunnels[i],
            ),
    ensures
        routes_distinct(f),
{
    assert forall|i: int, j: int| 0 <= i < j < f.tunnels.len() implies {
        let a = #[trigger] f.tunnels[i];
        let b = #[trigger] f.tunnels[j];
        !(a.dead is None && a.dir == Dir::Out && b.leads_to(a.peer, a.port, a.udp))
    } by {
        let a = e.tunnels[i];
        let b = e.tunnels[j];
        assert(!(a.dead is None && a.dir == Dir::Out && b.leads_to(a.peer, a.port, a.udp)));
    }
}

/// An engine stays well-formed through every command and invitation.
pub proof fn law_commands_keep_engine(
    e: EngineModel,
    port: u16,
    udp: bool,
    target: Option<Seq<char>>,
    opened: Seq<bool>,
    peer: u64,
    name: Seq<char>,
    id: u64,
    now: u64,
)
    requires
        well_formed(e),
    ensures
        e.share_plan(port, udp, target).share matches Some(s) ==> well_formed(e.with_share(s)),
        well_formed(e.unshared(port, udp)),
        well_formed(e.reshared(opened)),
        well_formed(e.with_mapping(peer, name, port, port, udp, now)),
        well_formed(e.unmapped(id)),
        well_formed(e.with_invite(peer, name, PortSpec { port, udp })),
        well_formed(e.dismissed(id)),
{
    law_one_share_per_port(e, port, udp, target, opened);
    law_one_invite(e, peer, name, PortSpec { port, udp }, id);
    lemma_routes_kept(e, e.unshared(port, udp));
    lemma_routes_kept(e, e.unmapped(id));
    if let Some(s) = e.share_plan(port, udp, target).share {
        lemma_routes_kept(e, e.with_share(s));
    }
    lemma_routes_kept(e, e.reshared(opened));
    lemma_routes_kept(e, e.with_mapping(peer, name, port, port, udp, now));
    lemma_routes_kept(e, e.with_invite(peer, name, PortSpec { port, udp }));
    lemma_routes_kept(e, e.dismissed(id));
}

/// An engine stays well-formed through connections, datagrams and the end of
/// tunnels, and whatever a single tunnel meets.
pub proof fn law_traffic_keeps_engine(
    e: EngineModel,
    share: ShareRowModel,
    peer: u64,
    port: u16,
    udp: bool,
    nonce: [u8; 32],
    src: FlowAddr,
    i: int,
    k: int,
    t: TunnelModel,
    now: u64,
)
    requires
        well_formed(e),
        0 <= i < e.mappings.len(),
        0 <= k < e.tunnels.len(),
        crate::laws::continues(e.tunnels[k], t),
    ensures
        well_formed(e.with_incoming(share, peer, nonce, now)),
        well_formed(e.left(peer, port)),
        e.route(peer, port, udp) is None ==> well_formed(e.with_outgoing(peer, port, udp, now)),
        well_formed(e.tried(i, now)),
        well_formed(e.on_datagram(i, src, now).0),
        well_formed(e.with_tunnel_at(k, t)),
        well_formed(EngineModel { tunnels: e.tunnels.remove(k), ..e }),
{
    law_tunnel_reused(e, peer, port, udp, now);
    lemma_routes_kept(e, e.left(peer, port));
    lemma_routes_kept(e, e.tried(i, now));
    lemma_routes_kept(e, e.with_tunnel_at(k, t));
    let m = e.mappings[i];
    crate::lists::lemma_first_where(e.tunnels, route_to(m.peer, m.remote_port, true));
    lemma_routes_kept(e, e.on_datagram(i, src, now).0);
    let w = e.with_incoming(share, peer, nonce, now);
    assert(routes_distinct(w)) by {
        assert forall|a: int, b: int| 0 <= a < b < w.tunnels.len() implies {
            let x = #[trigger] w.tunnels[a];
            let y = #[trigger] w.tunnels[b];
            !(x.dead is None && x.dir == Dir::Out && y.leads_to(x.peer, x.port, x.udp))
        } by {
            assert(w.tunnels[a] == e.tunnels[a]);
            if b < e.tunnels.len() {
                assert(w.tunnels[b] == e.tunnels[b]);
            }
        }
    }
    let r = EngineModel { tunnels: e.tunnels.remove(k), ..e };
    assert(routes_distinct(r)) by {
        assert forall|a: int, b: int| 0 <= a < b < r.tunnels.len() implies {
            let x = #[trigger] r.tunnels[a];
            let y = #[trigger] r.tunnels[b];
            !(x.dead is None && x.dir == Dir::Out && y.leads_to(x.peer, x.port, x.udp))
        } by {
            let a0 = if a < k {
                a
            } else {
                a + 1
            };
            let b0 = if b < k {
                b
            } else {
                b + 1
            };
            assert(r.tunnels[a] == e.tunnels[a0] && r.tunnels[b] == e.tunnels[b0]);
        }
    }
}

} // verus!
