//! One Steam connection to a peer for one port, carrying all its streams.
//!
//! A tunnel is driven from outside: each message, read or write on a socket is
//! reported to it, and it answers with what to do next.
use std::collections::VecDeque;
use vstd::prelude::*;
use vstd::string::*;

use crate::auth::{mac_matches, psk_mac};
use crate::handshake::{is_ok, judge, parse_answer, parse_hello, Answer, AnswerModel, Verdict};
use crate::log;
use crate::protocol::{
    auth_reply, data_flags, frame, noauth_reply, parse_frame, SendMode, APP_VERSION, F_CLOSE,
    F_DATA, F_EOF, F_OPEN, HDR, M_OK,
};
use crate::stream::{
    elapsed, empty_frame, new_stream, CloseReason, Dir, FlowAddr, LocalSock, ReadEnd, Stream,
    StreamModel,
};
use crate::text::{decode_lossy, same};

verus! {

/// Time for a handshake, in nanoseconds.
pub const HANDSHAKE_TIMEOUT: u64 = 20_000_000_000;

/// Time for which an unused outgoing tunnel stays open, in nanoseconds.
pub const TUNNEL_LINGER: u64 = 120_000_000_000;

/// The bit pattern of the 32-bit float -1: a quality not measured yet.
pub const QUALITY_UNKNOWN: u32 = 0xbf80_0000;

/// A round-trip time not measured yet.
pub const PING_UNKNOWN: i32 = -1;

/// How far the handshake has come.
#[derive(Clone, Copy, PartialEq, Eq, Structural, Debug)]
pub enum ConnState {
    /// Host: greeting sent, waiting for the answer.
    AwaitAuth,
    /// Client: waiting for the greeting.
    AwaitHello,
    /// Client: answer sent, waiting for the go-ahead.
    AwaitOk,
    Active,
}

/// What Steam says of a connection.
#[derive(Clone, Copy, PartialEq, Eq, Structural, Debug)]
pub enum Health {
    ClosedByPeer,
    Gone,
    Problem,
    Fine,
}

/// The view of an attempt to connect.
pub open spec fn attempt(r: Result<(), String>) -> Result<(), Seq<char>> {
    match r {
        Ok(_) => Ok(()),
        Err(e) => Err(e@),
    }
}

/// What a tunnel asks for.
#[verifier::ext_equal]
pub enum ActionModel {
    Nothing,
    Send(Seq<u8>),
    Frames(Seq<Seq<u8>>),
    Open { sid: u32 },
    OpenFlow { sid: u32, payload: Seq<u8> },
    Datagram { sid: u32, peer: Option<FlowAddr>, payload: Seq<u8> },
    Stop,
}

/// What a tunnel asks for.
pub enum Action {
    Nothing,
    /// Send a message reliably; a refusal is ignored.
    Send(Vec<u8>),
    /// Send frames reliably, in order, through `send_rel`.
    Frames(Vec<Vec<u8>>),
    /// Connect to the target for a stream, and report it to `opened`.
    Open { sid: u32 },
    /// Connect to the target for a flow, and report it to `flow_opened`.
    OpenFlow { sid: u32, payload: Vec<u8> },
    /// Hand a datagram to the stream's local socket.
    Datagram { sid: u32, peer: Option<FlowAddr>, payload: Vec<u8> },
    /// The tunnel is dead: end its turn.
    Stop,
}

impl View for Action {
    type V = ActionModel;

    open spec fn view(&self) -> ActionModel {
        match *self {
            Action::Nothing => ActionModel::Nothing,
            Action::Send(f) => ActionModel::Send(f@),
            Action::Frames(v) => ActionModel::Frames(crate::stream::frames(v@)),
            Action::Open { sid } => ActionModel::Open { sid },
            Action::OpenFlow { sid, payload } => ActionModel::OpenFlow { sid, payload: payload@ },
            Action::Datagram { sid, peer, payload } => ActionModel::Datagram {
                sid,
                peer,
                payload: payload@,
            },
            Action::Stop => ActionModel::Stop,
        }
    }
}

/// A tunnel as a value.
#[verifier::ext_equal]
pub struct TunnelModel {
    pub id: u64,
    pub dir: Dir,
    pub peer: u64,
    pub port: u16,
    pub udp: bool,
    pub state: ConnState,
    pub created: u64,
    pub nonce: Option<[u8; 32]>,
    pub target: Seq<char>,
    pub peer_version: Seq<char>,
    pub next_stream_id: u32,
    pub streams: Seq<StreamModel>,
    pub streams_served: u64,
    pub pending: Seq<Seq<u8>>,
    pub idle_since: u64,
    pub ping_ms: i32,
    pub quality: u32,
    pub tx_bytes: u64,
    pub rx_bytes: u64,
    pub tx_rate: u64,
    pub rx_rate: u64,
    pub last_tx: u64,
    pub last_rx: u64,
    pub dead: Option<CloseReason>,
}

/// A tunnel's next state, what it logs, and what it asks for.
#[verifier::ext_equal]
pub struct Outcome {
    pub tunnel: TunnelModel,
    pub log: Seq<Seq<char>>,
    pub action: ActionModel,
}

/// Streams with the id `sid`.
pub open spec fn with_id(sid: u32) -> spec_fn(StreamModel) -> bool {
    |st: StreamModel| st.id == sid
}

/// Live streams with the id `sid`.
pub open spec fn live_with_id(sid: u32) -> spec_fn(StreamModel) -> bool {
    |st: StreamModel| st.id == sid && st.dead is None
}

pub open spec fn alive() -> spec_fn(StreamModel) -> bool {
    |st: StreamModel| st.dead is None
}

/// Streams that have ended.
pub open spec fn has_died() -> spec_fn(StreamModel) -> bool {
    |st: StreamModel| st.dead is Some
}

/// Streams of whose end the peer is told.
pub open spec fn is_told() -> spec_fn(StreamModel) -> bool {
    |st: StreamModel| st.notifies()
}

/// The log line for a dead stream.
pub open spec fn closing_line(id: u64) -> spec_fn(StreamModel) -> Seq<char> {
    |st: StreamModel|
        log::stream_closed_text(id, st.id, crate::stream::reason_text(st.dead->0))
}

/// The frame that tells the peer of the end of a stream.
pub open spec fn closing_frame() -> spec_fn(StreamModel) -> Seq<u8> {
    |st: StreamModel| crate::protocol::frame_bytes(F_CLOSE, st.id, Seq::empty())
}

/// The frames that opening all waiting streams sends.
pub open spec fn all_opening_frames(ss: Seq<StreamModel>) -> Seq<Seq<u8>>
    decreases ss.len(),
{
    if ss.len() == 0 {
        Seq::empty()
    } else {
        all_opening_frames(ss.drop_last()) + ss.last().opening_frames()
    }
}

/// A byte count after opening all waiting streams.
pub open spec fn tx_after_opening(tx: u64, ss: Seq<StreamModel>) -> u64
    decreases ss.len(),
{
    if ss.len() == 0 {
        tx
    } else {
        let before = tx_after_opening(tx, ss.drop_last());
        if ss.last().waits() {
            before.wrapping_add(ss.last().pre_buf.len() as u64)
        } else {
            before
        }
    }
}

/// The closing frames for the dead streams that the peer has to be told of.
pub open spec fn closing_frames(ss: Seq<StreamModel>) -> Seq<Seq<u8>>
    decreases ss.len(),
{
    if ss.len() == 0 {
        Seq::empty()
    } else {
        let before = closing_frames(ss.drop_last());
        if ss.last().notifies() {
            before.push(crate::protocol::frame_bytes(F_CLOSE, ss.last().id, Seq::empty()))
        } else {
            before
        }
    }
}

/// The log lines for the dead streams.
pub open spec fn closing_log(id: u64, ss: Seq<StreamModel>) -> Seq<Seq<char>>
    decreases ss.len(),
{
    if ss.len() == 0 {
        Seq::empty()
    } else {
        let before = closing_log(id, ss.drop_last());
        match ss.last().dead {
            Some(why) => before.push(
                log::stream_closed_text(id, ss.last().id, crate::stream::reason_text(why)),
            ),
            None => before,
        }
    }
}

impl TunnelModel {
    /// A tunnel at the start of its handshake.
    pub open spec fn fresh(
        id: u64,
        dir: Dir,
        peer: u64,
        port: u16,
        udp: bool,
        state: ConnState,
        nonce: Option<[u8; 32]>,
        target: Seq<char>,
        now: u64,
    ) -> TunnelModel {
        TunnelModel {
            id,
            dir,
            peer,
            port,
            udp,
            state,
            created: now,
            nonce,
            target,
            peer_version: Seq::empty(),
            next_stream_id: 1,
            streams: Seq::empty(),
            streams_served: 0,
            pending: Seq::empty(),
            idle_since: now,
            ping_ms: PING_UNKNOWN,
            quality: QUALITY_UNKNOWN,
            tx_bytes: 0,
            rx_bytes: 0,
            tx_rate: 0,
            rx_rate: 0,
            last_tx: 0,
            last_rx: 0,
            dead: None,
        }
    }

    /// The first reason to end a tunnel is the one that counts.
    pub open spec fn ended(self, why: CloseReason) -> TunnelModel {
        if self.dead is None {
            TunnelModel { dead: Some(why), ..self }
        } else {
            self
        }
    }

    /// Ended, with nothing more to do in this turn.
    pub open spec fn stopped(self, why: CloseReason, lines: Seq<Seq<char>>) -> Outcome {
        Outcome { tunnel: self.ended(why), log: lines, action: ActionModel::Stop }
    }

    pub open spec fn doing(self, action: ActionModel) -> Outcome {
        Outcome { tunnel: self, log: Seq::empty(), action }
    }

    pub open spec fn with_stream(self, st: StreamModel) -> TunnelModel {
        TunnelModel {
            streams: self.streams.push(st),
            streams_served: self.streams_served.wrapping_add(1),
            ..self
        }
    }

    pub open spec fn has_stream(self, sid: u32) -> bool {
        crate::lists::first_where(self.streams, with_id(sid)) is Some
    }

    /// Data for a stream: it goes to the first live stream of that id, and
    /// nowhere if there is none.
    pub open spec fn on_data(self, sid: u32, payload: Seq<u8>, now: u64) -> Outcome {
        match crate::lists::first_where(self.streams, live_with_id(sid)) {
            Some(i) => {
                let st = self.streams[i];
                let t = TunnelModel {
                    streams: self.streams.update(i, st.delivered(payload, now)),
                    rx_bytes: self.rx_bytes.wrapping_add(payload.len() as u64),
                    ..self
                };
                match st.local {
                    Some(LocalSock::Udp { peer }) => t.doing(
                        ActionModel::Datagram { sid, peer, payload },
                    ),
                    _ => t.doing(ActionModel::Nothing),
                }
            },
            None => self.doing(ActionModel::Nothing),
        }
    }

    /// A frame on an open tunnel. Streams are opened by the client only; on
    /// the host a datagram that outran its opening opens its flow.
    pub open spec fn on_frame(self, data: Seq<u8>, now: u64) -> Outcome {
        match crate::protocol::frame_of(data) {
            None => self.doing(ActionModel::Nothing),
            Some(f) => {
                let live = crate::lists::first_where(self.streams, live_with_id(f.sid));
                if f.ftype == F_OPEN {
                    if self.dir != Dir::In || self.has_stream(f.sid) {
                        self.doing(ActionModel::Nothing)
                    } else {
                        self.doing(ActionModel::Open { sid: f.sid })
                    }
                } else if f.ftype == F_DATA {
                    if self.udp && self.dir == Dir::In && !self.has_stream(f.sid) {
                        self.doing(ActionModel::OpenFlow { sid: f.sid, payload: f.payload })
                    } else {
                        self.on_data(f.sid, f.payload, now)
                    }
                } else if f.ftype == F_EOF {
                    match live {
                        Some(i) => TunnelModel {
                            streams: self.streams.update(
                                i,
                                StreamModel { remote_eof: true, ..self.streams[i] },
                            ),
                            ..self
                        }.doing(ActionModel::Nothing),
                        None => self.doing(ActionModel::Nothing),
                    }
                } else if f.ftype == F_CLOSE {
                    match live {
                        Some(i) => TunnelModel {
                            streams: self.streams.update(
                                i,
                                StreamModel { reset: true, tcp_eof: true, ..self.streams[i] },
                            ),
                            ..self
                        }.doing(ActionModel::Nothing),
                        None => self.doing(ActionModel::Nothing),
                    }
                } else {
                    self.stopped(CloseReason::BadFrame, Seq::empty())
                }
            },
        }
    }

    /// With the version that the peer announced.
    pub open spec fn with_version(self, version: Option<Seq<u8>>) -> TunnelModel {
        match version {
            Some(v) => TunnelModel { peer_version: crate::text::lossy_text(v), ..self },
            None => self,
        }
    }

    /// The log line for a peer of another version.
    pub open spec fn version_log(self) -> Seq<Seq<char>> {
        if self.peer_version.len() > 0 && self.peer_version != APP_VERSION@ {
            seq![log::peer_runs_text(self.id, self.peer_version)]
        } else {
            Seq::empty()
        }
    }

    /// Whether an answer's proof holds for this tunnel's challenge.
    pub open spec fn proof_holds(self, answer: AnswerModel, psk: Seq<char>) -> bool {
        match (answer, self.nonce) {
            (AnswerModel::Auth { mac, proto, version }, Some(nonce)) => crate::auth::mac_accepted(
                psk,
                nonce@,
                mac,
            ),
            _ => false,
        }
    }

    /// The host on an answer, given what it makes of it.
    pub open spec fn on_verdict(self, version: Option<Seq<u8>>, verdict: Verdict) -> Outcome {
        let t = self.with_version(version);
        match verdict {
            Verdict::AuthFailed => t.stopped(
                CloseReason::AuthFailed,
                t.version_log().push(log::auth_failed_text(self.id)),
            ),
            Verdict::ProtocolMismatch => t.stopped(
                CloseReason::ProtocolMismatch,
                t.version_log().push(log::protocol_mismatch_text(self.id, self.port, self.udp)),
            ),
            Verdict::Accepted => Outcome {
                tunnel: TunnelModel { state: ConnState::Active, ..t },
                log: t.version_log().push(log::forwarding_text(self.id, self.target)),
                action: ActionModel::Send(M_OK@),
            },
        }
    }

    /// The host on a message that should be the client's answer.
    pub open spec fn on_answer(self, data: Seq<u8>, psk: Seq<char>) -> Outcome {
        let answer = crate::handshake::answer_of(data);
        self.on_verdict(
            crate::handshake::answer_version(answer),
            crate::handshake::verdict_on(
                psk.len() > 0,
                self.proof_holds(answer, psk),
                answer,
                self.udp,
            ),
        )
    }

    /// The client on a message that should be the host's greeting.
    pub open spec fn on_hello(self, data: Seq<u8>, psk: Seq<char>) -> Outcome {
        match crate::handshake::hello_of(data) {
            None => self.stopped(CloseReason::BadHello, Seq::empty()),
            Some(h) => {
                let t = self.with_version(Some(h.version));
                if h.auth_required && psk.len() == 0 {
                    t.stopped(
                        CloseReason::PskRequired,
                        t.version_log().push(log::psk_missing_text(self.id)),
                    )
                } else {
                    Outcome {
                        tunnel: TunnelModel { state: ConnState::AwaitOk, ..t },
                        log: t.version_log(),
                        action: ActionModel::Send(
                            if h.auth_required {
                                crate::protocol::auth_bytes(
                                    crate::auth::psk_mac_of(psk, h.nonce)@,
                                    self.udp,
                                )
                            } else {
                                crate::protocol::noauth_bytes(self.udp)
                            },
                        ),
                    }
                }
            },
        }
    }

    /// With every waiting stream opened.
    pub open spec fn activated(self) -> TunnelModel {
        TunnelModel {
            streams: self.streams.map_values(|st: StreamModel| st.activated()),
            tx_bytes: tx_after_opening(self.tx_bytes, self.streams),
            ..self
        }
    }

    /// The client on a message that should be the host's go-ahead.
    pub open spec fn on_ok(self, data: Seq<u8>) -> Outcome {
        if data == M_OK@ {
            Outcome {
                tunnel: TunnelModel { state: ConnState::Active, ..self }.activated(),
                log: seq![log::established_text(self.id)],
                action: ActionModel::Frames(all_opening_frames(self.streams)),
            }
        } else {
            self.stopped(CloseReason::HandshakeRejected, Seq::empty())
        }
    }

    /// A message from the peer.
    pub open spec fn on_message(self, data: Seq<u8>, psk: Seq<char>, now: u64) -> Outcome {
        match self.state {
            ConnState::Active => self.on_frame(data, now),
            ConnState::AwaitAuth => self.on_answer(data, psk),
            ConnState::AwaitHello => self.on_hello(data, psk),
            ConnState::AwaitOk => self.on_ok(data),
        }
    }

    /// The stream that the host opened, which the peer knows of.
    pub open spec fn host_stream(self, sid: u32, now: u64) -> StreamModel {
        StreamModel {
            open_sent: true,
            ..StreamModel::fresh(
                sid,
                None,
                Some(
                    if self.udp {
                        LocalSock::Udp { peer: None }
                    } else {
                        LocalSock::Tcp
                    },
                ),
                now,
            )
        }
    }

    /// After the host tried to connect a stream that the client opened.
    pub open spec fn on_opened(self, sid: u32, result: Result<(), Seq<char>>, now: u64) -> Outcome {
        match result {
            Ok(_) => Outcome {
                tunnel: self.with_stream(self.host_stream(sid, now)),
                log: seq![log::stream_open_text(self.id, sid, self.target)],
                action: ActionModel::Nothing,
            },
            Err(e) => Outcome {
                tunnel: self,
                log: seq![log::stream_failed_text(self.id, sid, e)],
                action: ActionModel::Frames(
                    seq![crate::protocol::frame_bytes(F_CLOSE, sid, Seq::empty())],
                ),
            },
        }
    }

    /// After the host tried to connect a flow for a datagram.
    pub open spec fn on_flow_opened(self, sid: u32, ok: bool, payload: Seq<u8>, now: u64) -> Outcome {
        if ok {
            self.with_stream(self.host_stream(sid, now)).on_data(sid, payload, now)
        } else {
            self.on_data(sid, payload, now)
        }
    }

    /// Without its dead streams.
    pub open spec fn swept(self) -> TunnelModel {
        TunnelModel { streams: crate::lists::kept(self.streams, alive()), ..self }
    }

    /// After a turn: a handshake that takes too long ends the tunnel, and so
    /// does idling on an open outgoing tunnel.
    pub open spec fn aged(self, now: u64) -> TunnelModel {
        let t = if self.state != ConnState::Active && crate::stream::elapsed_ns(now, self.created)
            > HANDSHAKE_TIMEOUT {
            self.ended(CloseReason::HandshakeTimeout)
        } else {
            self
        };
        if t.streams.len() > 0 {
            TunnelModel { idle_since: now, ..t }
        } else if t.dir == Dir::Out && t.state == ConnState::Active && crate::stream::elapsed_ns(
            now,
            t.idle_since,
        ) > TUNNEL_LINGER {
            t.ended(CloseReason::Idle)
        } else {
            t
        }
    }

    /// Whether this is the live outgoing tunnel to a peer's port.
    pub open spec fn leads_to(self, peer: u64, port: u16, udp: bool) -> bool {
        self.dead is None && self.dir == Dir::Out && self.peer == peer && self.port == port
            && self.udp == udp
    }
}

/// One Steam connection to a peer for one shared port.
pub struct Tunnel {
    pub id: u64,
    pub dir: Dir,
    pub peer: u64,
    pub port: u16,
    pub udp: bool,
    pub state: ConnState,
    pub created: u64,
    /// Host: the challenge sent in the greeting.
    pub nonce: Option<[u8; 32]>,
    /// Host: where the share forwards to.
    pub target: String,
    /// What the peer announced in the handshake.
    pub peer_version: String,
    /// Client: the next stream id to give out.
    pub next_stream_id: u32,
    pub streams: Vec<Stream>,
    /// How many streams the tunnel has carried.
    pub streams_served: u64,
    /// Reliable frames that Steam refused, retried in order.
    pub pending: VecDeque<Vec<u8>>,
    /// When the tunnel last had a stream.
    pub idle_since: u64,
    /// Round-trip time in milliseconds, -1 if not measured yet.
    pub ping_ms: i32,
    /// The worse packet delivery rate of the two directions, as the bit
    /// pattern of a 32-bit float.
    pub quality: u32,
    pub tx_bytes: u64,
    pub rx_bytes: u64,
    pub tx_rate: u64,
    pub rx_rate: u64,
    pub last_tx: u64,
    pub last_rx: u64,
    pub dead: Option<CloseReason>,
}

/// The views of a list of streams.
pub open spec fn stream_models(v: Seq<Stream>) -> Seq<StreamModel> {
    v.map_values(|s: Stream| s@)
}

impl View for Tunnel {
    type V = TunnelModel;

    open spec fn view(&self) -> TunnelModel {
        TunnelModel {
            id: self.id,
            dir: self.dir,
            peer: self.peer,
            port: self.port,
            udp: self.udp,
            state: self.state,
            created: self.created,
            nonce: self.nonce,
            target: self.target@,
            peer_version: self.peer_version@,
            next_stream_id: self.next_stream_id,
            streams: stream_models(self.streams@),
            streams_served: self.streams_served,
            pending: crate::stream::frames(self.pending@),
            idle_since: self.idle_since,
            ping_ms: self.ping_ms,
            quality: self.quality,
            tx_bytes: self.tx_bytes,
            rx_bytes: self.rx_bytes,
            tx_rate: self.tx_rate,
            rx_rate: self.rx_rate,
            last_tx: self.last_tx,
            last_rx: self.last_rx,
            dead: self.dead,
        }
    }
}

/// A tunnel at the start of its handshake.
pub fn new_tunnel(
    id: u64,
    dir: Dir,
    peer: u64,
    port: u16,
    udp: bool,
    state: ConnState,
    nonce: Option<[u8; 32]>,
    target: String,
    now: u64,
) -> (r: Tunnel)
    ensures
        r@ == TunnelModel::fresh(id, dir, peer, port, udp, state, nonce, target@, now),
{
    let r = Tunnel {
        id,
        dir,
        peer,
        port,
        udp,
        state,
        created: now,
        nonce,
        target,
        peer_version: String::new(),
        next_stream_id: 1,
        streams: Vec::new(),
        streams_served: 0,
        pending: VecDeque::new(),
        idle_since: now,
        ping_ms: PING_UNKNOWN,
        quality: QUALITY_UNKNOWN,
        tx_bytes: 0,
        rx_bytes: 0,
        tx_rate: 0,
        rx_rate: 0,
        last_tx: 0,
        last_rx: 0,
        dead: None,
    };
    assert(r@ =~= TunnelModel::fresh(id, dir, peer, port, udp, state, nonce, target@, now));
    r
}

impl Tunnel {
    /// Ends the tunnel; the first reason counts.
    pub fn mark_dead(&mut self, why: CloseReason)
        ensures
            final(self)@ == old(self)@.ended(why),
    {
        if self.dead.is_none() {
            self.dead = Some(why);
        }
    }

    /// Gives out a stream id.
    pub fn alloc_stream_id(&mut self) -> (id: u32)
        ensures
            id == old(self)@.next_stream_id,
            final(self)@ == (TunnelModel {
                next_stream_id: old(self)@.next_stream_id.wrapping_add(1),
                ..old(self)@
            }),
    {
        let id: u32 = self.next_stream_id;
        self.next_stream_id = self.next_stream_id.wrapping_add(1);
        id
    }

    /// Adds a stream.
    pub fn add_stream(&mut self, st: Stream)
        ensures
            final(self)@ == old(self)@.with_stream(st@),
    {
        self.streams.push(st);
        self.streams_served = self.streams_served.wrapping_add(1);
        assert(self@.streams =~= old(self)@.streams.push(st@));
    }

    /// Sends a reliable frame: gives it back if it is to be tried now, and
    /// queues it if earlier frames still wait.
    pub fn send_rel(&mut self, f: Vec<u8>) -> (r: Option<Vec<u8>>)
        ensures
            match r {
                Some(g) => old(self)@.pending.len() == 0 && g@ == f@ && final(self)@ == old(self)@,
                None => old(self)@.pending.len() > 0 && final(self)@ == old(self)@.queued(f@),
            },
    {
        if self.pending.len() > 0 {
            self.pending.push_back(f);
            assert(self@.pending =~= old(self)@.pending.push(f@));
            None
        } else {
            Some(f)
        }
    }

    /// Queues a frame that Steam refused.
    pub fn refused(&mut self, f: Vec<u8>)
        ensures
            final(self)@ == old(self)@.queued(f@),
    {
        self.pending.push_back(f);
        assert(self@.pending =~= old(self)@.pending.push(f@));
    }

    /// Takes note of a retry of the first waiting frame; tells whether to try
    /// the next one.
    pub fn retried(&mut self, accepted: bool) -> (more: bool)
        ensures
            final(self)@ == old(self)@.after_retry(accepted),
            more == (accepted && old(self)@.pending.len() > 1),
    {
        if accepted {
            let _ = self.pending.pop_front();
            assert(old(self)@.pending.len() > 0 ==> self@.pending =~= old(self)@.pending.skip(1));
            assert(old(self)@.pending.len() == 0 ==> self@.pending =~= old(self)@.pending);
            self.pending.len() > 0
        } else {
            false
        }
    }

    /// The position of the first live stream with an id.
    fn find_live(&self, sid: u32) -> (r: Option<usize>)
        ensures
            match r {
                Some(i) => crate::lists::first_where(self@.streams, live_with_id(sid)) == Some(
                    i as int,
                ) && i < self@.streams.len() && i < self.streams@.len(),
                None => crate::lists::first_where(self@.streams, live_with_id(sid)) is None,
            },
    {
        let ghost p = live_with_id(sid);
        let mut i: usize = 0;
        while i < self.streams.len()
            invariant
                i <= self.streams@.len(),
                p == live_with_id(sid),
                forall|j: int| 0 <= j < i ==> !p(#[trigger] self@.streams[j]),
            decreases self.streams@.len() - i,
        {
            assert(self@.streams[i as int] == self.streams@[i as int]@);
            if self.streams[i].id == sid && self.streams[i].dead.is_none() {
                proof {
                    crate::lists::lemma_first_where_is(self@.streams, p, i as int);
                }
                return Some(i);
            }
            i = i + 1;
        }
        proof {
            crate::lists::lemma_first_where_is(self@.streams, p, i as int);
        }
        None
    }

    /// Whether a stream with an id exists, live or not.
    pub fn knows_stream(&self, sid: u32) -> (r: bool)
        ensures
            r == self@.has_stream(sid),
    {
        let ghost p = with_id(sid);
        let mut i: usize = 0;
        while i < self.streams.len()
            invariant
                i <= self.streams@.len(),
                p == with_id(sid),
                forall|j: int| 0 <= j < i ==> !p(#[trigger] self@.streams[j]),
            decreases self.streams@.len() - i,
        {
            assert(self@.streams[i as int] == self.streams@[i as int]@);
            if self.streams[i].id == sid {
                proof {
                    crate::lists::lemma_first_where_is(self@.streams, p, i as int);
                }
                return true;
            }
            i = i + 1;
        }
        proof {
            crate::lists::lemma_first_where_is(self@.streams, p, i as int);
        }
        false
    }

    /// Takes data for a stream.
    fn take_data(&mut self, sid: u32, payload: &[u8], now: u64) -> (r: Action)
        ensures
            ({
                let o = old(self)@.on_data(sid, payload@, now);
                final(self)@ == o.tunnel && r@ == o.action && o.log.len() == 0
            }),
    {
        match self.find_live(sid) {
            Some(i) => {
                let local = self.streams[i].local;
                self.streams[i].deliver(payload, now);
                self.rx_bytes = self.rx_bytes.wrapping_add(payload.len() as u64);
                proof {
                    let st = old(self)@.streams[i as int];
                    assert(self@.streams =~= old(self)@.streams.update(
                        i as int,
                        st.delivered(payload@, now),
                    ));
                }
                match local {
                    Some(LocalSock::Udp { peer }) => Action::Datagram {
                        sid,
                        peer,
                        payload: vstd::slice::slice_to_vec(payload),
                    },
                    _ => Action::Nothing,
                }
            },
            None => Action::Nothing,
        }
    }

    /// Takes a frame on an open tunnel.
    fn take_frame(&mut self, data: &[u8], now: u64) -> (r: Action)
        ensures
            ({
                let o = old(self)@.on_frame(data@, now);
                final(self)@ == o.tunnel && r@ == o.action && o.log.len() == 0
            }),
    {
        let (ftype, sid, payload) = match parse_frame(data) {
            Some(t) => t,
            None => return Action::Nothing,
        };
        if ftype == F_OPEN {
            if self.dir != Dir::In || self.knows_stream(sid) {
                Action::Nothing
            } else {
                Action::Open { sid }
            }
        } else if ftype == F_DATA {
            if self.udp && self.dir == Dir::In && !self.knows_stream(sid) {
                Action::OpenFlow { sid, payload: vstd::slice::slice_to_vec(payload) }
            } else {
                self.take_data(sid, payload, now)
            }
        } else if ftype == F_EOF {
            if let Some(i) = self.find_live(sid) {
                self.streams[i].remote_eof = true;
                assert(self@.streams =~= old(self)@.streams.update(
                    i as int,
                    StreamModel { remote_eof: true, ..old(self)@.streams[i as int] },
                ));
            }
            Action::Nothing
        } else if ftype == F_CLOSE {
            if let Some(i) = self.find_live(sid) {
                self.streams[i].reset = true;
                self.streams[i].tcp_eof = true;
                assert(self@.streams =~= old(self)@.streams.update(
                    i as int,
                    StreamModel { reset: true, tcp_eof: true, ..old(self)@.streams[i as int] },
                ));
            }
            Action::Nothing
        } else {
            self.mark_dead(CloseReason::BadFrame);
            Action::Stop
        }
    }

    /// Logs a peer of another version.
    fn note_version(&self, lines: &mut Vec<String>)
        ensures
            crate::text::texts(final(lines)@) == crate::text::texts(old(lines)@)
                + self@.version_log(),
    {
        if !self.peer_version.as_str().is_empty() && !same(self.peer_version.as_str(), APP_VERSION) {
            lines.push(log::peer_runs(self.id, self.peer_version.as_str()));
        }
        assert(crate::text::texts(lines@) =~= crate::text::texts(old(lines)@)
            + self@.version_log());
    }

    /// Takes the client's answer, given what the host makes of it.
    pub fn take_verdict(
        &mut self,
        version: Option<&[u8]>,
        verdict: Verdict,
        lines: &mut Vec<String>,
    ) -> (r: Action)
        ensures
            ({
                let o = old(self)@.on_verdict(
                    match version {
                        Some(v) => Some(v@),
                        None => None,
                    },
                    verdict,
                );
                &&& final(self)@ == o.tunnel
                &&& r@ == o.action
                &&& crate::text::texts(final(lines)@) == crate::text::texts(old(lines)@) + o.log
            }),
    {
        if let Some(v) = version {
            self.peer_version = decode_lossy(v);
        }
        let ghost t = self@;
        self.note_version(lines);
        let ghost mid = crate::text::texts(lines@);
        let ghost before = crate::text::texts(old(lines)@);
        let line = match verdict {
            Verdict::AuthFailed => log::auth_failed(self.id),
            Verdict::ProtocolMismatch => log::protocol_mismatch(self.id, self.port, self.udp),
            Verdict::Accepted => log::forwarding(self.id, self.target.as_str()),
        };
        lines.push(line);
        assert(crate::text::texts(lines@) =~= mid.push(line@));
        assert(mid.push(line@) =~= before + t.version_log().push(line@));
        match verdict {
            Verdict::AuthFailed => {
                self.mark_dead(CloseReason::AuthFailed);
                Action::Stop
            },
            Verdict::ProtocolMismatch => {
                self.mark_dead(CloseReason::ProtocolMismatch);
                Action::Stop
            },
            Verdict::Accepted => {
                self.state = ConnState::Active;
                Action::Send(vstd::slice::slice_to_vec(M_OK.as_slice()))
            },
        }
    }

    /// Takes a message that should be the client's answer.
    fn take_answer(&mut self, data: &[u8], psk: &str, lines: &mut Vec<String>) -> (r: Action)
        ensures
            ({
                let o = old(self)@.on_answer(data@, psk@);
                &&& final(self)@ == o.tunnel
                &&& r@ == o.action
                &&& crate::text::texts(final(lines)@) == crate::text::texts(old(lines)@) + o.log
            }),
    {
        let answer = parse_answer(data);
        let psk_set = !psk.is_empty();
        let (proof_holds, version) = match &answer {
            Answer::Auth { mac, proto: _, version } => (
                match &self.nonce {
                    Some(nonce) => mac_matches(psk, nonce, mac),
                    None => false,
                },
                Some(*version),
            ),
            Answer::NoAuth { proto: _, version } => (false, Some(*version)),
            Answer::Other => (false, None),
        };
        let verdict = judge(psk_set, proof_holds, &answer, self.udp);
        self.take_verdict(version, verdict, lines)
    }

    /// Takes a message that should be the host's greeting.
    fn take_hello(&mut self, data: &[u8], psk: &str, lines: &mut Vec<String>) -> (r: Action)
        ensures
            ({
                let o = old(self)@.on_hello(data@, psk@);
                &&& final(self)@ == o.tunnel
                &&& r@ == o.action
                &&& crate::text::texts(final(lines)@) == crate::text::texts(old(lines)@) + o.log
            }),
    {
        let ghost before = crate::text::texts(old(lines)@);
        assert(before + Seq::<Seq<char>>::empty() =~= before);
        let h = match parse_hello(data) {
            Some(h) => h,
            None => {
                self.mark_dead(CloseReason::BadHello);
                return Action::Stop;
            },
        };
        self.peer_version = decode_lossy(h.version);
        let ghost t = self@;
        self.note_version(lines);
        if h.auth_required {
            if psk.is_empty() {
                let ghost mid = crate::text::texts(lines@);
                lines.push(log::psk_missing(self.id));
                assert(crate::text::texts(lines@) =~= mid.push(log::psk_missing_text(self.id)));
                assert(mid.push(log::psk_missing_text(self.id)) =~= before
                    + t.version_log().push(log::psk_missing_text(self.id)));
                self.mark_dead(CloseReason::PskRequired);
                return Action::Stop;
            }
            let mac = psk_mac(psk, &h.nonce);
            self.state = ConnState::AwaitOk;
            Action::Send(auth_reply(&mac, self.udp))
        } else {
            self.state = ConnState::AwaitOk;
            Action::Send(noauth_reply(self.udp))
        }
    }

    /// Opens every stream that waited for the handshake; gives the frames
    /// that do so.
    pub fn activate_streams(&mut self) -> (out: Vec<Vec<u8>>)
        ensures
            final(self)@ == old(self)@.activated(),
            crate::stream::frames(out@) == all_opening_frames(old(self)@.streams),
    {
        let mut out: Vec<Vec<u8>> = Vec::new();
        let mut i: usize = 0;
        let ghost was = self@;
        assert(crate::stream::frames(out@) =~= Seq::empty());
        while i < self.streams.len()
            invariant
                i <= self.streams@.len(),
                self.streams@.len() == was.streams.len(),
                self@.streams.take(i as int) == was.streams.take(i as int).map_values(
                    |st: StreamModel| st.activated(),
                ),
                self@.streams.skip(i as int) == was.streams.skip(i as int),
                self@ == (TunnelModel {
                    streams: self@.streams,
                    tx_bytes: tx_after_opening(was.tx_bytes, was.streams.take(i as int)),
                    ..was
                }),
                crate::stream::frames(out@) == all_opening_frames(was.streams.take(i as int)),
            decreases self.streams@.len() - i,
        {
            let ghost at = self@;
            assert(at.streams[i as int] == at.streams.skip(i as int)[0]);
            assert(was.streams[i as int] == was.streams.skip(i as int)[0]);
            assert(at.streams[i as int] == was.streams[i as int]);
            let n: u64 = self.streams[i].activate(&mut out);
            proof {
                let st = was.streams[i as int];
                assert(self@.streams =~= at.streams.update(i as int, st.activated()));
                assert(was.streams.take(i + 1).drop_last() =~= was.streams.take(i as int));
                assert(was.streams.take(i + 1).last() == st);
                assert(self@.streams.take(i + 1) =~= was.streams.take(i + 1).map_values(
                    |st: StreamModel| st.activated(),
                )) by {
                    assert forall|j: int| 0 <= j < i implies self@.streams[j]
                        == was.streams[j].activated() by {
                        assert(self@.streams[j] == at.streams.take(i as int)[j]);
                    }
                }
                assert(self@.streams.skip(i + 1) =~= was.streams.skip(i + 1)) by {
                    assert forall|j: int| i < j < was.streams.len() implies self@.streams[j]
                        == was.streams[j] by {
                        assert(at.streams[j] == at.streams.skip(i as int)[j - i]);
                        assert(was.streams[j] == was.streams.skip(i as int)[j - i]);
                    }
                }
            }
            self.tx_bytes = self.tx_bytes.wrapping_add(n);
            i = i + 1;
        }
        assert(was.streams.take(i as int) =~= was.streams);
        assert(self@.streams.take(i as int) =~= self@.streams);
        out
    }

    /// Takes a message that should be the host's go-ahead.
    fn take_ok(&mut self, data: &[u8], lines: &mut Vec<String>) -> (r: Action)
        ensures
            ({
                let o = old(self)@.on_ok(data@);
                &&& final(self)@ == o.tunnel
                &&& r@ == o.action
                &&& crate::text::texts(final(lines)@) == crate::text::texts(old(lines)@) + o.log
            }),
    {
        let ghost before = crate::text::texts(old(lines)@);
        if is_ok(data) {
            self.state = ConnState::Active;
            lines.push(log::established(self.id));
            assert(crate::text::texts(lines@) =~= before + seq![log::established_text(self.id)]);
            Action::Frames(self.activate_streams())
        } else {
            self.mark_dead(CloseReason::HandshakeRejected);
            assert(before + Seq::<Seq<char>>::empty() =~= before);
            Action::Stop
        }
    }

    /// Takes a message from the peer.
    pub fn receive(&mut self, data: &[u8], psk: &str, now: u64, lines: &mut Vec<String>) -> (r:
        Action)
        ensures
            ({
                let o = old(self)@.on_message(data@, psk@, now);
                &&& final(self)@ == o.tunnel
                &&& r@ == o.action
                &&& crate::text::texts(final(lines)@) == crate::text::texts(old(lines)@) + o.log
            }),
    {
        match self.state {
            ConnState::Active => {
                let r = self.take_frame(data, now);
                assert(crate::text::texts(lines@) =~= crate::text::texts(old(lines)@)
                    + old(self)@.on_message(data@, psk@, now).log);
                r
            },
            ConnState::AwaitAuth => self.take_answer(data, psk, lines),
            ConnState::AwaitHello => self.take_hello(data, psk, lines),
            ConnState::AwaitOk => self.take_ok(data, lines),
        }
    }
}

impl TunnelModel {
    /// With the stream at `i` replaced.
    pub open spec fn with_stream_at(self, i: int, st: StreamModel) -> TunnelModel {
        TunnelModel { streams: self.streams.update(i, st), ..self }
    }

    /// With a frame at the end of those that wait.
    pub open spec fn queued(self, f: Seq<u8>) -> TunnelModel {
        TunnelModel { pending: self.pending.push(f), ..self }
    }

    /// After a frame was sent reliably, given whether Steam takes it if it is
    /// offered: it is offered only if no other waits.
    pub open spec fn after_send(self, f: Seq<u8>, accepted: bool) -> TunnelModel {
        if self.pending.len() == 0 && accepted {
            self
        } else {
            self.queued(f)
        }
    }

    /// What Steam took when a frame was sent.
    pub open spec fn send_takes(self, f: Seq<u8>, accepted: bool) -> Seq<Seq<u8>> {
        if self.pending.len() == 0 && accepted {
            seq![f]
        } else {
            Seq::empty()
        }
    }

    /// After the first waiting frame was offered again.
    pub open spec fn after_retry(self, accepted: bool) -> TunnelModel {
        if self.pending.len() > 0 && accepted {
            TunnelModel { pending: self.pending.skip(1), ..self }
        } else {
            self
        }
    }

    /// What Steam took when the first waiting frame was offered again.
    pub open spec fn retry_takes(self, accepted: bool) -> Seq<Seq<u8>> {
        if self.pending.len() > 0 && accepted {
            seq![self.pending[0]]
        } else {
            Seq::empty()
        }
    }

    /// With `n` bytes counted as sent, on the tunnel and on the stream at `i`.
    pub open spec fn counted(self, i: int, n: u64) -> TunnelModel {
        let st = self.streams[i];
        TunnelModel {
            tx_bytes: self.tx_bytes.wrapping_add(n),
            ..self.with_stream_at(i, StreamModel { tx_bytes: st.tx_bytes.wrapping_add(n), ..st })
        }
    }

    /// After bytes were read from the local TCP socket of the stream at `i`:
    /// they stay here until the peer knows of the stream.
    pub open spec fn on_tcp_data(self, i: int, data: Seq<u8>) -> TunnelModel {
        let st = self.streams[i];
        if st.open_sent {
            self
        } else {
            self.with_stream_at(i, st.held_back(data))
        }
    }

    /// After a data frame of a TCP stream was offered to Steam: a refused one
    /// waits, and counts as sent all the same.
    pub open spec fn on_tcp_sent(self, i: int, f: Seq<u8>, accepted: bool) -> TunnelModel {
        let t = if accepted {
            self
        } else {
            self.queued(f)
        };
        t.counted(i, (f.len() - HDR) as u64)
    }

    /// After a datagram was offered to Steam: a refused one is lost.
    pub open spec fn on_udp_sent(self, i: int, n: u64, accepted: bool) -> TunnelModel {
        if accepted {
            self.counted(i, n)
        } else {
            self
        }
    }

    /// Bytes sent and received since the rates were last set.
    pub open spec fn traffic(self) -> (u64, u64) {
        (self.tx_bytes.wrapping_sub(self.last_tx), self.rx_bytes.wrapping_sub(self.last_rx))
    }

    /// With rates set, and the count started anew.
    pub open spec fn with_rates(self, tx_rate: u64, rx_rate: u64) -> TunnelModel {
        TunnelModel {
            tx_rate,
            rx_rate,
            last_tx: self.tx_bytes,
            last_rx: self.rx_bytes,
            ..self
        }
    }

    /// After Steam told how the connection is.
    pub open spec fn checked(self, health: Health) -> TunnelModel {
        match health {
            Health::ClosedByPeer => self.ended(CloseReason::ClosedByPeer),
            Health::Problem => self.ended(CloseReason::ConnectionProblem),
            Health::Gone => self.ended(CloseReason::ConnectionGone),
            Health::Fine => self,
        }
    }
}

/// What to do with bytes read from a local TCP socket.
pub enum TcpStep {
    /// Offer this frame to Steam, and report it to `sent_tcp`.
    Send(Vec<u8>),
    /// Go on reading.
    More,
    /// Stop reading.
    Done,
}

impl Tunnel {
    /// Takes bytes read from the local TCP socket of the stream at `i`.
    pub fn read_tcp(&mut self, i: usize, data: &[u8]) -> (r: TcpStep)
        requires
            i < old(self)@.streams.len(),
        ensures
            final(self)@ == old(self)@.on_tcp_data(i as int, data@),
            match r {
                TcpStep::Send(f) => old(self)@.streams[i as int].open_sent && f@
                    == crate::protocol::frame_bytes(
                    F_DATA,
                    old(self)@.streams[i as int].id,
                    data@,
                ),
                TcpStep::More => !old(self)@.streams[i as int].open_sent && old(
                    self,
                )@.streams[i as int].pre_buf.len() + data@.len() <= crate::stream::PRE_BUF_CAP,
                TcpStep::Done => !old(self)@.streams[i as int].open_sent && old(
                    self,
                )@.streams[i as int].pre_buf.len() + data@.len() > crate::stream::PRE_BUF_CAP,
            },
    {
        assert(self@.streams[i as int] == self.streams@[i as int]@);
        if self.streams[i].open_sent {
            return TcpStep::Send(frame(F_DATA, self.streams[i].id, data));
        }
        let more = self.streams[i].hold_back(data);
        assert(self@.streams =~= old(self)@.streams.update(
            i as int,
            old(self)@.streams[i as int].held_back(data@),
        ));
        if more {
            TcpStep::More
        } else {
            TcpStep::Done
        }
    }

    /// Counts bytes as sent.
    fn count_sent(&mut self, i: usize, n: u64)
        requires
            i < old(self)@.streams.len(),
        ensures
            final(self)@ == old(self)@.counted(i as int, n),
    {
        self.tx_bytes = self.tx_bytes.wrapping_add(n);
        self.streams[i].tx_bytes = self.streams[i].tx_bytes.wrapping_add(n);
        assert(self@.streams =~= old(self)@.counted(i as int, n).streams);
    }

    /// Takes note of a data frame that was offered to Steam; tells whether to
    /// go on reading.
    pub fn sent_tcp(&mut self, i: usize, f: Vec<u8>, accepted: bool) -> (more: bool)
        requires
            i < old(self)@.streams.len(),
            f@.len() >= HDR,
        ensures
            final(self)@ == old(self)@.on_tcp_sent(i as int, f@, accepted),
            more == accepted,
    {
        let n: u64 = (f.len() - HDR) as u64;
        if !accepted {
            self.refused(f);
        }
        self.count_sent(i, n);
        accepted
    }

    /// Takes note of a read from the local TCP socket of the stream at `i`
    /// that gave no bytes; gives the frame to try now, if any.
    pub fn end_tcp(&mut self, i: usize, end: ReadEnd) -> (r: Option<Vec<u8>>)
        requires
            i < old(self)@.streams.len(),
        ensures
            ({
                let st = old(self)@.streams[i as int];
                let t = old(self)@.with_stream_at(i as int, st.read_ended(end));
                let eof = crate::protocol::frame_bytes(F_EOF, st.id, Seq::empty());
                if end == ReadEnd::Eof && st.open_sent {
                    if t.pending.len() > 0 {
                        r is None && final(self)@ == t.queued(eof)
                    } else {
                        r matches Some(f) && f@ == eof && final(self)@ == t
                    }
                } else {
                    r is None && final(self)@ == t
                }
            }),
    {
        let ghost st = self@.streams[i as int];
        let told = self.streams[i].end_read(end);
        assert(self@.streams =~= old(self)@.streams.update(i as int, st.read_ended(end)));
        match told {
            Some(f) => self.send_rel(f),
            None => None,
        }
    }

    /// Takes a datagram from the local side of the stream at `i`: gives the
    /// message to offer to Steam, and how to send it.
    pub fn read_udp(&mut self, i: usize, data: &[u8], now: u64) -> (r: (Vec<u8>, SendMode))
        requires
            i < old(self)@.streams.len(),
            data@.len() + HDR <= usize::MAX,
        ensures
            final(self)@ == old(self)@.with_stream_at(
                i as int,
                StreamModel { last_activity: now, ..old(self)@.streams[i as int] },
            ),
            r.0@ == crate::protocol::frame_bytes(F_DATA, old(self)@.streams[i as int].id, data@),
            r.1 == if data@.len() + HDR <= crate::protocol::MAX_UNRELIABLE {
                SendMode::Unreliable
            } else {
                SendMode::Reliable
            },
    {
        let ghost st = self@.streams[i as int];
        self.streams[i].last_activity = now;
        assert(self@.streams =~= old(self)@.streams.update(
            i as int,
            StreamModel { last_activity: now, ..st },
        ));
        (frame(F_DATA, self.streams[i].id, data), data_flags(true, data.len() + HDR))
    }

    /// Takes note of a datagram of `n` bytes that was offered to Steam.
    pub fn sent_udp(&mut self, i: usize, n: u64, accepted: bool)
        requires
            i < old(self)@.streams.len(),
        ensures
            final(self)@ == old(self)@.on_udp_sent(i as int, n, accepted),
    {
        if accepted {
            self.count_sent(i, n);
        }
    }

    /// Takes the local socket for a stream that the client opened, or the
    /// reason that there is none.
    pub fn opened(&mut self, sid: u32, result: Result<(), String>, now: u64, lines: &mut Vec<
        String,
    >) -> (r: Action)
        ensures
            ({
                let o = old(self)@.on_opened(sid, attempt(result), now);
                &&& final(self)@ == o.tunnel
                &&& r@ == o.action
                &&& crate::text::texts(final(lines)@) == crate::text::texts(old(lines)@) + o.log
            }),
    {
        let ghost before = crate::text::texts(lines@);
        match result {
            Ok(_) => {
                self.add_host_stream(sid, now);
                lines.push(log::stream_open(self.id, sid, self.target.as_str()));
                assert(crate::text::texts(lines@) =~= before + seq![
                    log::stream_open_text(self.id, sid, self.target@),
                ]);
                Action::Nothing
            },
            Err(e) => {
                lines.push(log::stream_failed(self.id, sid, e.as_str()));
                assert(crate::text::texts(lines@) =~= before + seq![
                    log::stream_failed_text(self.id, sid, e@),
                ]);
                let mut out: Vec<Vec<u8>> = Vec::new();
                out.push(empty_frame(F_CLOSE, sid));
                assert(crate::stream::frames(out@) =~= seq![
                    crate::protocol::frame_bytes(F_CLOSE, sid, Seq::empty()),
                ]);
                Action::Frames(out)
            },
        }
    }

    /// Adds a stream that the host connected.
    fn add_host_stream(&mut self, sid: u32, now: u64)
        ensures
            final(self)@ == old(self)@.with_stream(old(self)@.host_stream(sid, now)),
    {
        let local = if self.udp {
            LocalSock::Udp { peer: None }
        } else {
            LocalSock::Tcp
        };
        let mut st = new_stream(sid, None, Some(local), now);
        st.open_sent = true;
        assert(st@ == self@.host_stream(sid, now));
        self.add_stream(st);
    }

    /// Takes the local socket for a flow that a datagram opens, if there is
    /// one, and the datagram.
    pub fn flow_opened(&mut self, sid: u32, ok: bool, payload: &[u8], now: u64) -> (r: Action)
        ensures
            ({
                let o = old(self)@.on_flow_opened(sid, ok, payload@, now);
                final(self)@ == o.tunnel && r@ == o.action && o.log.len() == 0
            }),
    {
        if ok {
            self.add_host_stream(sid, now);
        }
        self.take_data(sid, payload, now)
    }

    /// Drops the dead streams; gives the frames that tell the peer of those
    /// that it cannot know of.
    pub fn sweep(&mut self, lines: &mut Vec<String>) -> (out: Vec<Vec<u8>>)
        ensures
            final(self)@ == old(self)@.swept(),
            crate::stream::frames(out@) == closing_frames(old(self)@.streams),
            crate::text::texts(final(lines)@) == crate::text::texts(old(lines)@) + closing_log(
                old(self)@.id,
                old(self)@.streams,
            ),
    {
        let mut out: Vec<Vec<u8>> = Vec::new();
        let ghost was = self@;
        let ghost before = crate::text::texts(lines@);
        let mut all: Vec<Stream> = Vec::new();
        core::mem::swap(&mut all, &mut self.streams);
        let ghost list = stream_models(all@);
        let mut left: Vec<Stream> = Vec::new();
        let id: u64 = self.id;
        assert(crate::stream::frames(out@) =~= Seq::empty());
        assert(stream_models(left@) =~= Seq::empty());
        assert(before + Seq::<Seq<char>>::empty() =~= before);
        assert(list.take(0) =~= Seq::empty());
        for st in it: all
            invariant
                it.seq() == all@,
                list == stream_models(all@),
                id == was.id,
                stream_models(left@) == crate::lists::kept(list.take(it.index() as int), alive()),
                crate::stream::frames(out@) == closing_frames(list.take(it.index() as int)),
                crate::text::texts(lines@) == before + closing_log(
                    was.id,
                    list.take(it.index() as int),
                ),
        {
            let ghost k = it.index() as int;
            proof {
                assert(list.take(k + 1).drop_last() =~= list.take(k));
                assert(list.take(k + 1).last() == st@);
            }
            let ghost left0 = stream_models(left@);
            let ghost out0 = crate::stream::frames(out@);
            let ghost lines0 = crate::text::texts(lines@);
            match st.dead {
                Some(why) => {
                    let notify = !st.reset && why != CloseReason::Finished;
                    if notify {
                        out.push(empty_frame(F_CLOSE, st.id));
                        assert(crate::stream::frames(out@) =~= out0.push(
                            crate::protocol::frame_bytes(F_CLOSE, st.id, Seq::empty()),
                        ));
                    }
                    lines.push(log::stream_closed(id, st.id, why.text()));
                    assert(crate::text::texts(lines@) =~= lines0.push(
                        log::stream_closed_text(id, st.id, crate::stream::reason_text(why)),
                    ));
                    assert(crate::text::texts(lines@) =~= before + closing_log(
                        was.id,
                        list.take(k + 1),
                    ));
                },
                None => {
                    left.push(st);
                    assert(stream_models(left@) =~= left0.push(st@));
                },
            }
        }
        assert(list.take(list.len() as int) =~= list);
        self.streams = left;
        out
    }

    /// Ends the tunnel if its handshake takes too long or if it idles.
    pub fn age(&mut self, now: u64)
        ensures
            final(self)@ == old(self)@.aged(now),
    {
        if self.state != ConnState::Active && elapsed(now, self.created) > HANDSHAKE_TIMEOUT {
            self.mark_dead(CloseReason::HandshakeTimeout);
        }
        if self.streams.len() > 0 {
            self.idle_since = now;
        } else if self.dir == Dir::Out && self.state == ConnState::Active && elapsed(
            now,
            self.idle_since,
        ) > TUNNEL_LINGER {
            self.mark_dead(CloseReason::Idle);
        }
    }

    /// Takes note of what Steam says of the connection.
    pub fn check(&mut self, health: Health)
        ensures
            final(self)@ == old(self)@.checked(health),
    {
        match health {
            Health::ClosedByPeer => self.mark_dead(CloseReason::ClosedByPeer),
            Health::Problem => self.mark_dead(CloseReason::ConnectionProblem),
            Health::Gone => self.mark_dead(CloseReason::ConnectionGone),
            Health::Fine => {},
        }
    }

    /// Bytes sent and received since the rates were last set.
    pub fn since_rates(&self) -> (r: (u64, u64))
        ensures
            r == self@.traffic(),
    {
        (self.tx_bytes.wrapping_sub(self.last_tx), self.rx_bytes.wrapping_sub(self.last_rx))
    }

    /// Sets the rates, and starts counting anew.
    pub fn set_rates(&mut self, tx_rate: u64, rx_rate: u64)
        ensures
            final(self)@ == old(self)@.with_rates(tx_rate, rx_rate),
    {
        self.tx_rate = tx_rate;
        self.rx_rate = rx_rate;
        self.last_tx = self.tx_bytes;
        self.last_rx = self.rx_bytes;
    }

    /// Whether this is the live outgoing tunnel to a peer's port.
    pub fn is_route(&self, peer: u64, port: u16, udp: bool) -> (r: bool)
        ensures
            r == self@.leads_to(peer, port, udp),
    {
        self.dead.is_none() && self.dir == Dir::Out && self.peer == peer && self.port == port
            && self.udp == udp
    }
}

impl TunnelModel {
    /// The stream for a local program that connected: the peer knows of it at
    /// once if the tunnel is open.
    pub open spec fn local_stream(self, mapping_id: u64, local: LocalSock, now: u64) ->
        StreamModel {
        StreamModel {
            open_sent: self.state == ConnState::Active,
            ..StreamModel::fresh(self.next_stream_id, Some(mapping_id), Some(local), now)
        }
    }

    /// What a datagram of a local program is sent as on the stream at `i`, and
    /// how: not at all if the peer does not know of the stream yet, and
    /// reliably if it is too large for one packet.
    pub open spec fn datagram_out(self, i: int, data: Seq<u8>) -> Option<(Seq<u8>, SendMode)> {
        let st = self.streams[i];
        if st.open_sent {
            Some(
                (
                    crate::protocol::frame_bytes(F_DATA, st.id, data),
                    if data.len() + HDR <= crate::protocol::MAX_UNRELIABLE {
                        SendMode::Unreliable
                    } else {
                        SendMode::Reliable
                    },
                ),
            )
        } else {
            None
        }
    }

    /// The frame that tells the peer of the next stream.
    pub open spec fn next_opening(self) -> Seq<u8> {
        crate::protocol::frame_bytes(F_OPEN, self.next_stream_id, Seq::empty())
    }

    /// The opening frame to offer to Steam at once: on an open tunnel on which
    /// nothing waits.
    pub open spec fn opening_to_try(self) -> Option<Seq<u8>> {
        if self.state == ConnState::Active && self.pending.len() == 0 {
            Some(self.next_opening())
        } else {
            None
        }
    }

    /// With a stream for a local program. On an open tunnel the opening frame
    /// waits if others do.
    pub open spec fn with_local_stream(self, mapping_id: u64, local: LocalSock, now: u64) ->
        TunnelModel {
        let t = TunnelModel {
            next_stream_id: self.next_stream_id.wrapping_add(1),
            ..self.with_stream(self.local_stream(mapping_id, local, now))
        };
        if self.state == ConnState::Active && self.pending.len() > 0 {
            t.queued(self.next_opening())
        } else {
            t
        }
    }
}

impl Tunnel {
    /// Opens a stream for a local program; gives the frame to try now, if any.
    pub fn open_stream(&mut self, mapping_id: u64, local: LocalSock, now: u64) -> (r: Option<
        Vec<u8>,
    >)
        ensures
            final(self)@ == old(self)@.with_local_stream(mapping_id, local, now),
            match r {
                Some(f) => old(self)@.opening_to_try() == Some(f@),
                None => old(self)@.opening_to_try() is None,
            },
    {
        let ghost was = self@;
        let sid: u32 = self.alloc_stream_id();
        let mut st = new_stream(sid, Some(mapping_id), Some(local), now);
        let active = self.state == ConnState::Active;
        let r = if active {
            st.open_sent = true;
            self.send_rel(empty_frame(F_OPEN, sid))
        } else {
            None
        };
        assert(st@ == was.local_stream(mapping_id, local, now));
        self.add_stream(st);
        assert(self@ =~= was.with_local_stream(mapping_id, local, now));
        r
    }

    /// Takes a datagram of a local program for the stream at `i`: gives the
    /// message to offer to Steam, unless the peer does not know of the stream
    /// yet; then the datagram is lost.
    pub fn client_datagram(&mut self, i: usize, data: &[u8], now: u64) -> (r: Option<
        (Vec<u8>, SendMode),
    >)
        requires
            i < old(self)@.streams.len(),
            data@.len() + HDR <= usize::MAX,
        ensures
            final(self)@ == old(self)@.with_stream_at(
                i as int,
                StreamModel { last_activity: now, ..old(self)@.streams[i as int] },
            ),
            match r {
                Some(m) => old(self)@.datagram_out(i as int, data@) == Some((m.0@, m.1)),
                None => old(self)@.datagram_out(i as int, data@) is None,
            },
    {
        assert(self@.streams[i as int] == self.streams@[i as int]@);
        let known = self.streams[i].open_sent;
        let m = self.read_udp(i, data, now);
        if known {
            Some(m)
        } else {
            None
        }
    }
}

} // verus!
