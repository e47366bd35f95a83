//! A tunnel's turn: what waits is retried, what arrived is taken, every stream
//! is flushed and read, and dead streams are dropped.
//!
//! A turn is driven from outside. Each step answers an event with what to do
//! next, and what comes of that is the next event.
use std::collections::VecDeque;
use vstd::prelude::*;
use vstd::string::*;

use crate::protocol::{SendMode, HDR, MAX_DGRAMS_PER_TICK, MAX_READS_PER_TICK, UDP_BUF};
use crate::stream::{FlowAddr, LocalRead, LocalSock, ReadEnd, StreamModel, WriteOutcome};
use crate::tunnel::{Action, ActionModel, Outcome, TcpStep, Tunnel, TunnelModel};

verus! {

/// What happened.
#[verifier::ext_equal]
pub enum EventModel {
    Go,
    Sent(bool),
    Messages(Seq<Seq<u8>>),
    Opened(Result<(), Seq<char>>),
    Wrote(WriteOutcome),
    Data(Seq<u8>),
    Ended(ReadEnd),
}

/// What happened.
pub enum Event {
    /// The turn starts, or what was asked for is done.
    Go,
    /// Whether Steam took what it was offered.
    Sent(bool),
    /// The messages that arrived, none if they could not be read.
    Messages(VecDeque<Vec<u8>>),
    /// Whether the target could be connected to.
    Opened(Result<(), String>),
    /// How the write went.
    Wrote(WriteOutcome),
    /// What the read gave.
    Data(Vec<u8>),
    /// The read gave no bytes.
    Ended(ReadEnd),
}

impl View for Event {
    type V = EventModel;

    open spec fn view(&self) -> EventModel {
        match *self {
            Event::Go => EventModel::Go,
            Event::Sent(ok) => EventModel::Sent(ok),
            Event::Messages(ms) => EventModel::Messages(crate::stream::frames(ms@)),
            Event::Opened(r) => EventModel::Opened(crate::tunnel::attempt(r)),
            Event::Wrote(w) => EventModel::Wrote(w),
            Event::Data(d) => EventModel::Data(d@),
            Event::Ended(e) => EventModel::Ended(e),
        }
    }
}

/// What to do next.
#[verifier::ext_equal]
pub enum AskModel {
    Continue,
    Offer(Seq<u8>),
    OfferDatagram { message: Seq<u8>, mode: SendMode },
    Receive,
    Send(Seq<u8>),
    Open { sid: u32 },
    Deliver { sid: u32, peer: Option<FlowAddr>, payload: Seq<u8> },
    Write { stream: usize },
    ShutWrite { stream: usize },
    ReadTcp { stream: usize },
    ReadUdp { stream: usize },
    Finished,
}

/// What to do next.
pub enum Ask {
    /// Nothing: go on.
    Continue,
    /// Offer a message to Steam reliably, and tell whether it was taken.
    Offer(Vec<u8>),
    /// Offer a datagram to Steam, and tell whether it was taken.
    OfferDatagram { message: Vec<u8>, mode: SendMode },
    /// Take the messages that arrived.
    Receive,
    /// Send a message reliably, come what may, and go on.
    Send(Vec<u8>),
    /// Connect to the target for a stream, and tell whether it worked.
    Open { sid: u32 },
    /// Hand a datagram to a stream's local socket, and go on.
    Deliver { sid: u32, peer: Option<FlowAddr>, payload: Vec<u8> },
    /// Write what waits for a stream's local socket, and tell how it went.
    Write { stream: usize },
    /// Shut down the write half of a stream's local socket, and go on.
    ShutWrite { stream: usize },
    /// Read a stream's TCP socket, and tell what it gave.
    ReadTcp { stream: usize },
    /// Receive a datagram on a flow's own socket, and tell what it gave.
    ReadUdp { stream: usize },
    /// The turn is over.
    Finished,
}

impl View for Ask {
    type V = AskModel;

    open spec fn view(&self) -> AskModel {
        match *self {
            Ask::Continue => AskModel::Continue,
            Ask::Offer(f) => AskModel::Offer(f@),
            Ask::OfferDatagram { message, mode } => AskModel::OfferDatagram {
                message: message@,
                mode,
            },
            Ask::Receive => AskModel::Receive,
            Ask::Send(m) => AskModel::Send(m@),
            Ask::Open { sid } => AskModel::Open { sid },
            Ask::Deliver { sid, peer, payload } => AskModel::Deliver {
                sid,
                peer,
                payload: payload@,
            },
            Ask::Write { stream } => AskModel::Write { stream },
            Ask::ShutWrite { stream } => AskModel::ShutWrite { stream },
            Ask::ReadTcp { stream } => AskModel::ReadTcp { stream },
            Ask::ReadUdp { stream } => AskModel::ReadUdp { stream },
            Ask::Finished => AskModel::Finished,
        }
    }
}

/// Where a turn goes on once its frames are sent.
#[derive(Clone, Copy, PartialEq, Eq, Structural, Debug)]
pub enum Next {
    Inbox,
    Conclude(usize),
    End,
}

/// How far a turn has come.
#[derive(Clone, Copy, PartialEq, Eq, Structural, Debug)]
pub enum Phase {
    Start,
    /// The first waiting frame was offered.
    Retry,
    Receive,
    /// The next message is due.
    Inbox,
    /// The target is being connected to for a stream.
    Opening { sid: u32 },
    /// The target is being connected to for the flow of the datagram held.
    OpeningFlow { sid: u32 },
    /// The next frame of the outbox is due.
    Outbox { next: Next },
    /// The frame held was offered, and waits if it is refused.
    Offering { next: Next },
    /// The stream is due.
    Stream { stream: usize },
    Writing { stream: usize },
    Settle { stream: usize },
    /// The local socket may be read so many times more.
    Read { stream: usize, udp: bool, left: usize },
    Reading { stream: usize, udp: bool, left: usize },
    /// The data frame held was offered.
    SendingTcp { stream: usize, left: usize },
    /// A datagram of so many bytes was offered.
    SendingUdp { stream: usize, left: usize, count: u64 },
    Conclude { stream: usize },
    End,
}

/// A turn as a value.
#[verifier::ext_equal]
pub struct TurnModel {
    pub phase: Phase,
    /// Messages still to be taken.
    pub inbox: Seq<Seq<u8>>,
    /// Frames still to be sent.
    pub outbox: Seq<Seq<u8>>,
    /// A frame or a datagram that is needed once more.
    pub held: Seq<u8>,
}

/// A step of a turn.
#[verifier::ext_equal]
pub struct StepModel {
    pub turn: TurnModel,
    pub tunnel: TunnelModel,
    pub log: Seq<Seq<char>>,
    pub ask: AskModel,
}

impl TurnModel {
    pub open spec fn fresh() -> TurnModel {
        TurnModel {
            phase: Phase::Start,
            inbox: Seq::empty(),
            outbox: Seq::empty(),
            held: Seq::empty(),
        }
    }

    /// Holding on to a frame or a datagram.
    pub open spec fn holding(self, bytes: Seq<u8>) -> TurnModel {
        TurnModel { held: bytes, ..self }
    }

    /// Goes on to a phase, asking for something.
    pub open spec fn to(self, phase: Phase, tunnel: TunnelModel, ask: AskModel) -> StepModel {
        StepModel { turn: TurnModel { phase, ..self }, tunnel, log: Seq::empty(), ask }
    }

    /// Ends the turn.
    pub open spec fn over(self, tunnel: TunnelModel) -> StepModel {
        self.to(Phase::End, tunnel, AskModel::Finished)
    }

    /// Offers the first waiting frame, or goes on to what arrived.
    #[verifier::opaque]
    pub open spec fn retrying(self, t: TunnelModel, more: bool) -> StepModel {
        if more && t.pending.len() > 0 {
            self.to(Phase::Retry, t, AskModel::Offer(t.pending[0]))
        } else {
            self.to(Phase::Receive, t, AskModel::Receive)
        }
    }

    /// Does what a message asked for.
    #[verifier::opaque]
    pub open spec fn acting(self, t: TunnelModel, lines: Seq<Seq<char>>, action: ActionModel) ->
        StepModel {
        let s = match action {
            ActionModel::Nothing => self.to(Phase::Inbox, t, AskModel::Continue),
            ActionModel::Send(m) => self.to(Phase::Inbox, t, AskModel::Send(m)),
            ActionModel::Frames(fs) => TurnModel { outbox: fs, ..self }.to(
                Phase::Outbox { next: Next::Inbox },
                t,
                AskModel::Continue,
            ),
            ActionModel::Open { sid } => self.to(
                Phase::Opening { sid },
                t,
                AskModel::Open { sid },
            ),
            ActionModel::OpenFlow { sid, payload } => self.holding(payload).to(
                Phase::OpeningFlow { sid },
                t,
                AskModel::Open { sid },
            ),
            ActionModel::Datagram { sid, peer, payload } => self.to(
                Phase::Inbox,
                t,
                AskModel::Deliver { sid, peer, payload },
            ),
            ActionModel::Stop => self.over(t),
        };
        StepModel { log: lines, ..s }
    }

    /// After an attempt to connect to the target.
    pub open spec fn on_connected(self, o: Outcome) -> StepModel {
        self.acting(o.tunnel, o.log, o.action)
    }

    /// After a frame was offered: it waits if it was refused.
    #[verifier::opaque]
    pub open spec fn on_offered(self, t: TunnelModel, next: Next, accepted: bool) -> StepModel {
        self.holding(Seq::empty()).to(
            Phase::Outbox { next },
            if accepted {
                t
            } else {
                t.queued(self.held)
            },
            AskModel::Continue,
        )
    }

    /// Takes the next message; after the last the streams' turn comes.
    #[verifier::opaque]
    pub open spec fn on_inbox(self, t: TunnelModel, psk: Seq<char>, now: u64) -> StepModel {
        if self.inbox.len() == 0 {
            self.to(
                Phase::Stream { stream: 0 },
                t,
                AskModel::Continue,
            )
        } else {
            let o = t.on_message(self.inbox[0], psk, now);
            TurnModel { inbox: self.inbox.skip(1), ..self }.acting(o.tunnel, o.log, o.action)
        }
    }

    /// Where to go once all frames are sent.
    pub open spec fn after_outbox(self, t: TunnelModel, next: Next) -> StepModel {
        match next {
            Next::Inbox => self.to(Phase::Inbox, t, AskModel::Continue),
            Next::Conclude(stream) => self.to(
                Phase::Conclude { stream },
                t,
                AskModel::Continue,
            ),
            Next::End => self.over(t),
        }
    }

    /// Sends the next frame: offers it if none waits, else lets it wait too.
    #[verifier::opaque]
    pub open spec fn on_outbox(self, t: TunnelModel, next: Next) -> StepModel {
        if self.outbox.len() == 0 {
            self.after_outbox(t, next)
        } else {
            let f = self.outbox[0];
            let rest = TurnModel { outbox: self.outbox.skip(1), ..self };
            if t.pending.len() == 0 {
                rest.holding(f).to(Phase::Offering { next }, t, AskModel::Offer(f))
            } else {
                rest.to(Phase::Outbox { next }, t.queued(f), AskModel::Continue)
            }
        }
    }

    /// Starts on a stream, past dead ones; after the last, dead streams are
    /// dropped and the peer is told.
    #[verifier::opaque]
    pub open spec fn on_stream(self, t: TunnelModel, i: usize) -> StepModel {
        if i >= t.streams.len() {
            StepModel {
                log: crate::tunnel::closing_log(t.id, t.streams),
                ..TurnModel { outbox: crate::tunnel::closing_frames(t.streams), ..self }.to(
                    Phase::Outbox { next: Next::End },
                    t.swept(),
                    AskModel::Continue,
                )
            }
        } else if t.streams[i as int].dead is Some {
            self.to(Phase::Stream { stream: (i + 1) as usize }, t, AskModel::Continue)
        } else {
            self.flushing(t, i, true)
        }
    }

    /// Writes what waits for a TCP socket, or settles the stream.
    #[verifier::opaque]
    pub open spec fn flushing(self, t: TunnelModel, i: usize, more: bool) -> StepModel {
        let st = t.streams[i as int];
        if more && st.local == Some(LocalSock::Tcp) && st.tcp_out.len() > 0 {
            self.to(Phase::Writing { stream: i }, t, AskModel::Write { stream: i })
        } else {
            self.to(Phase::Settle { stream: i }, t, AskModel::Continue)
        }
    }

    /// After a write.
    #[verifier::opaque]
    pub open spec fn on_wrote(self, t: TunnelModel, i: usize, outcome: WriteOutcome) -> StepModel {
        if i >= t.streams.len() || (outcome matches WriteOutcome::Wrote(n) && n
            > t.streams[i as int].tcp_out.len()) {
            self.over(t)
        } else {
            let st = t.streams[i as int].written(outcome);
            let more = outcome matches WriteOutcome::Wrote(n) && n > 0;
            self.flushing(t.with_stream_at(i as int, st), i, more)
        }
    }

    /// Half-closes where due, and decides what to read.
    #[verifier::opaque]
    pub open spec fn on_settle(self, t: TunnelModel, i: usize) -> StepModel {
        if i >= t.streams.len() {
            self.over(t)
        } else {
            let st = t.streams[i as int];
            let u = t.with_stream_at(i as int, st.settled());
            let ask = if st.half_closes() {
                AskModel::ShutWrite { stream: i }
            } else {
                AskModel::Continue
            };
            let phase = match st.settled().reads(t.dir, t.pending.len() == 0) {
                LocalRead::Skip => Phase::Conclude { stream: i },
                LocalRead::Tcp => Phase::Read {
                    stream: i,
                    udp: false,
                    left: MAX_READS_PER_TICK,
                },
                LocalRead::Udp => Phase::Read {
                    stream: i,
                    udp: true,
                    left: MAX_DGRAMS_PER_TICK,
                },
            };
            self.to(phase, u, ask)
        }
    }

    /// Reads again, unless the stream has had its share.
    #[verifier::opaque]
    pub open spec fn on_read(self, t: TunnelModel, i: usize, udp: bool, left: usize) -> StepModel {
        if left == 0 {
            self.to(Phase::Conclude { stream: i }, t, AskModel::Continue)
        } else {
            self.to(
                Phase::Reading { stream: i, udp, left: (left - 1) as usize },
                t,
                if udp {
                    AskModel::ReadUdp { stream: i }
                } else {
                    AskModel::ReadTcp { stream: i }
                },
            )
        }
    }

    /// After bytes came from a TCP socket.
    #[verifier::opaque]
    pub open spec fn on_tcp_data(self, t: TunnelModel, i: usize, left: usize, data: Seq<u8>) ->
        StepModel {
        if i >= t.streams.len() {
            self.over(t)
        } else {
            let st = t.streams[i as int];
            let u = t.on_tcp_data(i as int, data);
            if st.open_sent {
                let f = crate::protocol::frame_bytes(crate::protocol::F_DATA, st.id, data);
                self.holding(f).to(
                    Phase::SendingTcp { stream: i, left },
                    u,
                    AskModel::Offer(f),
                )
            } else if st.pre_buf.len() + data.len() <= crate::stream::PRE_BUF_CAP {
                self.to(Phase::Read { stream: i, udp: false, left }, u, AskModel::Continue)
            } else {
                self.to(Phase::Conclude { stream: i }, u, AskModel::Continue)
            }
        }
    }

    /// After a datagram came from a flow's socket.
    #[verifier::opaque]
    pub open spec fn on_udp_data(
        self,
        t: TunnelModel,
        i: usize,
        left: usize,
        data: Seq<u8>,
        now: u64,
    ) -> StepModel {
        if i >= t.streams.len() || data.len() > UDP_BUF {
            self.over(t)
        } else {
            let st = t.streams[i as int];
            self.to(
                Phase::SendingUdp { stream: i, left, count: data.len() as u64 },
                t.with_stream_at(i as int, StreamModel { last_activity: now, ..st }),
                AskModel::OfferDatagram {
                    message: crate::protocol::frame_bytes(crate::protocol::F_DATA, st.id, data),
                    mode: if data.len() + HDR <= crate::protocol::MAX_UNRELIABLE {
                        SendMode::Unreliable
                    } else {
                        SendMode::Reliable
                    },
                },
            )
        }
    }

    /// After a read gave no bytes: the local end of a TCP stream is told to
    /// the peer.
    #[verifier::opaque]
    pub open spec fn on_read_end(self, t: TunnelModel, i: usize, udp: bool, end: ReadEnd) ->
        StepModel {
        let conclude = Phase::Conclude { stream: i };
        if i >= t.streams.len() {
            self.over(t)
        } else if udp {
            self.to(conclude, t, AskModel::Continue)
        } else {
            let st = t.streams[i as int];
            let u = t.with_stream_at(i as int, st.read_ended(end));
            let eof = crate::protocol::frame_bytes(
                crate::protocol::F_EOF,
                st.id,
                Seq::empty(),
            );
            if end == ReadEnd::Eof && st.open_sent {
                if u.pending.len() > 0 {
                    self.to(conclude, u.queued(eof), AskModel::Continue)
                } else {
                    TurnModel { outbox: Seq::empty(), ..self }.holding(eof).to(
                        Phase::Offering { next: Next::Conclude(i) },
                        u,
                        AskModel::Offer(eof),
                    )
                }
            } else {
                self.to(conclude, u, AskModel::Continue)
            }
        }
    }

    /// After a data frame of a TCP stream was offered: a refusal ends the
    /// reading.
    #[verifier::opaque]
    pub open spec fn on_tcp_sent(
        self,
        t: TunnelModel,
        i: usize,
        left: usize,
        accepted: bool,
    ) -> StepModel {
        if i >= t.streams.len() || self.held.len() < HDR {
            self.over(t)
        } else {
            self.holding(Seq::empty()).to(
                if accepted {
                    Phase::Read { stream: i, udp: false, left }
                } else {
                    Phase::Conclude { stream: i }
                },
                t.on_tcp_sent(i as int, self.held, accepted),
                AskModel::Continue,
            )
        }
    }

    /// After a datagram was offered.
    #[verifier::opaque]
    pub open spec fn on_udp_sent(
        self,
        t: TunnelModel,
        i: usize,
        left: usize,
        count: u64,
        accepted: bool,
    ) -> StepModel {
        if i >= t.streams.len() {
            self.over(t)
        } else {
            self.to(
                Phase::Read { stream: i, udp: true, left },
                t.on_udp_sent(i as int, count, accepted),
                AskModel::Continue,
            )
        }
    }

    /// Ends a stream's part of the turn.
    #[verifier::opaque]
    pub open spec fn on_conclude(self, t: TunnelModel, i: usize, now: u64) -> StepModel {
        if i >= t.streams.len() {
            self.over(t)
        } else {
            self.to(
                Phase::Stream { stream: (i + 1) as usize },
                t.with_stream_at(i as int, t.streams[i as int].concluded(t.udp, now)),
                AskModel::Continue,
            )
        }
    }

    /// The next step on an event. An event that does not answer what was asked
    /// for ends the turn.
    pub open spec fn step(self, t: TunnelModel, event: EventModel, psk: Seq<char>, now: u64) ->
        StepModel {
        match self.phase {
            Phase::Start => match event {
                EventModel::Go => self.retrying(t, true),
                _ => self.over(t),
            },
            Phase::Retry => match event {
                EventModel::Sent(ok) => self.retrying(t.after_retry(ok), ok),
                _ => self.over(t),
            },
            Phase::Receive => match event {
                EventModel::Messages(ms) => TurnModel { inbox: ms, ..self }.to(
                    Phase::Inbox,
                    t,
                    AskModel::Continue,
                ),
                _ => self.over(t),
            },
            Phase::Inbox => match event {
                EventModel::Go => self.on_inbox(t, psk, now),
                _ => self.over(t),
            },
            Phase::Opening { sid } => match event {
                EventModel::Opened(r) => self.on_connected(t.on_opened(sid, r, now)),
                _ => self.over(t),
            },
            Phase::OpeningFlow { sid } => match event {
                EventModel::Opened(r) => self.holding(Seq::empty()).on_connected(
                    t.on_flow_opened(sid, r is Ok, self.held, now),
                ),
                _ => self.over(t),
            },
            Phase::Outbox { next } => match event {
                EventModel::Go => self.on_outbox(t, next),
                _ => self.over(t),
            },
            Phase::Offering { next } => match event {
                EventModel::Sent(ok) => self.on_offered(t, next, ok),
                _ => self.over(t),
            },
            Phase::Stream { stream } => match event {
                EventModel::Go => self.on_stream(t, stream),
                _ => self.over(t),
            },
            Phase::Writing { stream } => match event {
                EventModel::Wrote(w) => self.on_wrote(t, stream, w),
                _ => self.over(t),
            },
            Phase::Settle { stream } => match event {
                EventModel::Go => self.on_settle(t, stream),
                _ => self.over(t),
            },
            Phase::Read { stream, udp, left } => match event {
                EventModel::Go => self.on_read(t, stream, udp, left),
                _ => self.over(t),
            },
            Phase::Reading { stream, udp, left } => match event {
                EventModel::Data(d) => if udp {
                    self.on_udp_data(t, stream, left, d, now)
                } else {
                    self.on_tcp_data(t, stream, left, d)
                },
                EventModel::Ended(e) => self.on_read_end(t, stream, udp, e),
                _ => self.over(t),
            },
            Phase::SendingTcp { stream, left } => match event {
                EventModel::Sent(ok) => self.on_tcp_sent(t, stream, left, ok),
                _ => self.over(t),
            },
            Phase::SendingUdp { stream, left, count } => match event {
                EventModel::Sent(ok) => self.on_udp_sent(t, stream, left, count, ok),
                _ => self.over(t),
            },
            Phase::Conclude { stream } => match event {
                EventModel::Go => self.on_conclude(t, stream, now),
                _ => self.over(t),
            },
            Phase::End => self.over(t),
        }
    }
}

/// A turn of a tunnel.
pub struct Turn {
    pub phase: Phase,
    /// Messages still to be taken.
    pub inbox: VecDeque<Vec<u8>>,
    /// Frames still to be sent.
    pub outbox: VecDeque<Vec<u8>>,
    /// A frame or a datagram that is needed once more.
    pub held: Vec<u8>,
}

impl View for Turn {
    type V = TurnModel;

    open spec fn view(&self) -> TurnModel {
        TurnModel {
            phase: self.phase,
            inbox: crate::stream::frames(self.inbox@),
            outbox: crate::stream::frames(self.outbox@),
            held: self.held@,
        }
    }
}

/// A copy of a list of bytes.
fn copy_bytes(v: &Vec<u8>) -> (r: Vec<u8>)
    ensures
        r@ == v@,
{
    vstd::slice::slice_to_vec(v.as_slice())
}

/// Frames as a queue.
fn queue_of(fs: Vec<Vec<u8>>) -> (r: VecDeque<Vec<u8>>)
    ensures
        crate::stream::frames(r@) == crate::stream::frames(fs@),
{
    let mut r: VecDeque<Vec<u8>> = VecDeque::new();
    let ghost all = crate::stream::frames(fs@);
    assert(crate::stream::frames(r@) =~= all.take(0));
    for f in it: fs
        invariant
            it.seq() == fs@,
            all == crate::stream::frames(fs@),
            crate::stream::frames(r@) == all.take(it.index() as int),
    {
        let ghost k = it.index() as int;
        let ghost had = crate::stream::frames(r@);
        r.push_back(f);
        assert(crate::stream::frames(r@) =~= had.push(f@));
        assert(all.take(k + 1) =~= all.take(k).push(all[k]));
    }
    assert(all.take(all.len() as int) =~= all);
    r
}

impl Turn {
    pub fn new() -> (r: Turn)
        ensures
            r@ == TurnModel::fresh(),
    {
        let r = Turn {
            phase: Phase::Start,
            inbox: VecDeque::new(),
            outbox: VecDeque::new(),
            held: Vec::new(),
        };
        assert(r@ =~= TurnModel::fresh());
        r
    }

    fn over(&mut self) -> (r: Ask)
        ensures
            r@ == AskModel::Finished,
            final(self)@ == (TurnModel { phase: Phase::End, ..old(self)@ }),
    {
        self.phase = Phase::End;
        Ask::Finished
    }

    fn retry(&mut self, t: &Tunnel, more: bool) -> (r: Ask)
        ensures
            ({
                let s = old(self)@.retrying(t@, more);
                final(self)@ == s.turn && r@ == s.ask && s.tunnel == t@ && s.log.len() == 0
            }),
    {
        proof {
            reveal(TurnModel::retrying);
        }
        if more && t.pending.len() > 0 {
            self.phase = Phase::Retry;
            Ask::Offer(copy_bytes(&t.pending[0]))
        } else {
            self.phase = Phase::Receive;
            Ask::Receive
        }
    }

    fn act(&mut self, action: Action, Ghost(t): Ghost<TunnelModel>, Ghost(lines): Ghost<
        Seq<Seq<char>>,
    >) -> (r: Ask)
        ensures
            ({
                let s = old(self)@.acting(t, lines, action@);
                final(self)@ == s.turn && r@ == s.ask && s.tunnel == t && s.log == lines
            }),
    {
        proof {
            reveal(TurnModel::acting);
        }
        match action {
            Action::Nothing => {
                self.phase = Phase::Inbox;
                Ask::Continue
            },
            Action::Send(m) => {
                self.phase = Phase::Inbox;
                Ask::Send(m)
            },
            Action::Frames(fs) => {
                self.outbox = queue_of(fs);
                self.phase = Phase::Outbox { next: Next::Inbox };
                Ask::Continue
            },
            Action::Open { sid } => {
                self.phase = Phase::Opening { sid };
                Ask::Open { sid }
            },
            Action::OpenFlow { sid, payload } => {
                self.held = payload;
                self.phase = Phase::OpeningFlow { sid };
                Ask::Open { sid }
            },
            Action::Datagram { sid, peer, payload } => {
                self.phase = Phase::Inbox;
                Ask::Deliver { sid, peer, payload }
            },
            Action::Stop => self.over(),
        }
    }

    fn take_message(&mut self, t: &mut Tunnel, psk: &str, now: u64, lines: &mut Vec<String>) -> (r:
        Ask)
        ensures
            ({
                let s = old(self)@.on_inbox(old(t)@, psk@, now);
                &&& final(self)@ == s.turn
                &&& final(t)@ == s.tunnel
                &&& r@ == s.ask
                &&& crate::text::texts(final(lines)@) == crate::text::texts(old(lines)@) + s.log
            }),
    {
        proof {
            reveal(TurnModel::on_inbox);
        }
        match self.inbox.pop_front() {
            None => {
                self.phase = Phase::Stream { stream: 0 };
                assert(crate::text::texts(lines@) + Seq::<Seq<char>>::empty()
                    =~= crate::text::texts(lines@));
                Ask::Continue
            },
            Some(m) => {
                assert(self@.inbox =~= old(self)@.inbox.skip(1));
                assert(m@ == old(self)@.inbox[0]);
                let action = t.receive(m.as_slice(), psk, now, lines);
                let ghost o = old(t)@.on_message(m@, psk@, now);
                self.act(action, Ghost(o.tunnel), Ghost(o.log))
            },
        }
    }

    fn send_next(&mut self, t: &mut Tunnel, next: Next) -> (r: Ask)
        ensures
            ({
                let s = old(self)@.on_outbox(old(t)@, next);
                final(self)@ == s.turn && final(t)@ == s.tunnel && r@ == s.ask && s.log.len() == 0
            }),
    {
        proof {
            reveal(TurnModel::on_outbox);
        }
        match self.outbox.pop_front() {
            None => {
                match next {
                    Next::Inbox => {
                        self.phase = Phase::Inbox;
                        Ask::Continue
                    },
                    Next::Conclude(stream) => {
                        self.phase = Phase::Conclude { stream };
                        Ask::Continue
                    },
                    Next::End => self.over(),
                }
            },
            Some(f) => {
                assert(self@.outbox =~= old(self)@.outbox.skip(1));
                assert(f@ == old(self)@.outbox[0]);
                match t.send_rel(f) {
                    Some(f) => {
                        let copy = copy_bytes(&f);
                        self.held = f;
                        self.phase = Phase::Offering { next };
                        Ask::Offer(copy)
                    },
                    None => {
                        self.phase = Phase::Outbox { next };
                        Ask::Continue
                    },
                }
            },
        }
    }

    fn flush(&mut self, t: &Tunnel, i: usize, more: bool) -> (r: Ask)
        requires
            i < t@.streams.len(),
        ensures
            ({
                let s = old(self)@.flushing(t@, i, more);
                final(self)@ == s.turn && r@ == s.ask && s.tunnel == t@ && s.log.len() == 0
            }),
    {
        proof {
            reveal(TurnModel::flushing);
        }
        let st = &t.streams[i];
        assert(st@ == t@.streams[i as int]);
        let tcp = match st.local {
            Some(LocalSock::Tcp) => true,
            _ => false,
        };
        if more && tcp && st.tcp_out.len() > 0 {
            self.phase = Phase::Writing { stream: i };
            Ask::Write { stream: i }
        } else {
            self.phase = Phase::Settle { stream: i };
            Ask::Continue
        }
    }

    fn start_stream(&mut self, t: &mut Tunnel, i: usize, lines: &mut Vec<String>) -> (r: Ask)
        ensures
            ({
                let s = old(self)@.on_stream(old(t)@, i);
                &&& final(self)@ == s.turn
                &&& final(t)@ == s.tunnel
                &&& r@ == s.ask
                &&& crate::text::texts(final(lines)@) == crate::text::texts(old(lines)@) + s.log
            }),
    {
        proof {
            reveal(TurnModel::on_stream);
            reveal(TurnModel::flushing);
        }
        if i >= t.streams.len() {
            let fs = t.sweep(lines);
            self.outbox = queue_of(fs);
            self.phase = Phase::Outbox { next: Next::End };
            return Ask::Continue;
        }
        assert(crate::text::texts(lines@) + Seq::<Seq<char>>::empty() =~= crate::text::texts(
            lines@,
        ));
        assert(t@.streams[i as int] == t.streams@[i as int]@);
        if t.streams[i].dead.is_some() {
            self.phase = Phase::Stream { stream: i + 1 };
            Ask::Continue
        } else {
            self.flush(t, i, true)
        }
    }

    fn take_write(&mut self, t: &mut Tunnel, i: usize, outcome: WriteOutcome) -> (r: Ask)
        ensures
            ({
                let s = old(self)@.on_wrote(old(t)@, i, outcome);
                final(self)@ == s.turn && final(t)@ == s.tunnel && r@ == s.ask && s.log.len() == 0
            }),
    {
        proof {
            reveal(TurnModel::on_wrote);
            reveal(TurnModel::flushing);
        }
        if i >= t.streams.len() {
            return self.over();
        }
        assert(t@.streams[i as int] == t.streams@[i as int]@);
        let mut more = false;
        if let WriteOutcome::Wrote(n) = outcome {
            if n > t.streams[i].tcp_out.len() {
                return self.over();
            }
            more = n > 0;
        }
        let _ = t.streams[i].wrote(outcome);
        assert(t@.streams =~= old(t)@.streams.update(
            i as int,
            old(t)@.streams[i as int].written(outcome),
        ));
        self.flush(t, i, more)
    }

    fn settle(&mut self, t: &mut Tunnel, i: usize) -> (r: Ask)
        ensures
            ({
                let s = old(self)@.on_settle(old(t)@, i);
                final(self)@ == s.turn && final(t)@ == s.tunnel && r@ == s.ask && s.log.len() == 0
            }),
    {
        proof {
            reveal(TurnModel::on_settle);
        }
        if i >= t.streams.len() {
            return self.over();
        }
        assert(t@.streams[i as int] == t.streams@[i as int]@);
        let dir = t.dir;
        let pending_empty = t.pending.len() == 0;
        let (shut, read) = t.streams[i].settle(dir, pending_empty);
        assert(t@.streams =~= old(t)@.streams.update(
            i as int,
            old(t)@.streams[i as int].settled(),
        ));
        self.phase = match read {
            LocalRead::Skip => Phase::Conclude { stream: i },
            LocalRead::Tcp => Phase::Read { stream: i, udp: false, left: MAX_READS_PER_TICK },
            LocalRead::Udp => Phase::Read { stream: i, udp: true, left: MAX_DGRAMS_PER_TICK },
        };
        if shut {
            Ask::ShutWrite { stream: i }
        } else {
            Ask::Continue
        }
    }

    fn read(&mut self, i: usize, udp: bool, left: usize, Ghost(t): Ghost<TunnelModel>) -> (r: Ask)
        ensures
            ({
                let s = old(self)@.on_read(t, i, udp, left);
                final(self)@ == s.turn && r@ == s.ask && s.tunnel == t && s.log.len() == 0
            }),
    {
        proof {
            reveal(TurnModel::on_read);
        }
        if left == 0 {
            self.phase = Phase::Conclude { stream: i };
            Ask::Continue
        } else {
            self.phase = Phase::Reading { stream: i, udp, left: left - 1 };
            if udp {
                Ask::ReadUdp { stream: i }
            } else {
                Ask::ReadTcp { stream: i }
            }
        }
    }

    fn take_tcp(&mut self, t: &mut Tunnel, i: usize, left: usize, data: &Vec<u8>) -> (r: Ask)
        ensures
            ({
                let s = old(self)@.on_tcp_data(old(t)@, i, left, data@);
                final(self)@ == s.turn && final(t)@ == s.tunnel && r@ == s.ask && s.log.len() == 0
            }),
    {
        proof {
            reveal(TurnModel::on_tcp_data);
        }
        if i >= t.streams.len() {
            return self.over();
        }
        match t.read_tcp(i, data.as_slice()) {
            TcpStep::Send(f) => {
                let copy = copy_bytes(&f);
                self.held = f;
                self.phase = Phase::SendingTcp { stream: i, left };
                Ask::Offer(copy)
            },
            TcpStep::More => {
                self.phase = Phase::Read { stream: i, udp: false, left };
                Ask::Continue
            },
            TcpStep::Done => {
                self.phase = Phase::Conclude { stream: i };
                Ask::Continue
            },
        }
    }

    fn take_udp(&mut self, t: &mut Tunnel, i: usize, left: usize, data: &Vec<u8>, now: u64) -> (r:
        Ask)
        ensures
            ({
                let s = old(self)@.on_udp_data(old(t)@, i, left, data@, now);
                final(self)@ == s.turn && final(t)@ == s.tunnel && r@ == s.ask && s.log.len() == 0
            }),
    {
        proof {
            reveal(TurnModel::on_udp_data);
        }
        if i >= t.streams.len() || data.len() > UDP_BUF {
            return self.over();
        }
        let (message, mode) = t.read_udp(i, data.as_slice(), now);
        self.phase = Phase::SendingUdp { stream: i, left, count: data.len() as u64 };
        Ask::OfferDatagram { message, mode }
    }

    fn end_read(&mut self, t: &mut Tunnel, i: usize, udp: bool, end: ReadEnd) -> (r: Ask)
        ensures
            ({
                let s = old(self)@.on_read_end(old(t)@, i, udp, end);
                final(self)@ == s.turn && final(t)@ == s.tunnel && r@ == s.ask && s.log.len() == 0
            }),
    {
        proof {
            reveal(TurnModel::on_read_end);
        }
        if i >= t.streams.len() {
            return self.over();
        }
        if !udp {
            if let Some(f) = t.end_tcp(i, end) {
                let copy = copy_bytes(&f);
                self.outbox = VecDeque::new();
                assert(self@.outbox =~= Seq::empty());
                self.held = f;
                self.phase = Phase::Offering { next: Next::Conclude(i) };
                return Ask::Offer(copy);
            }
        }
        self.phase = Phase::Conclude { stream: i };
        Ask::Continue
    }

    fn conclude(&mut self, t: &mut Tunnel, i: usize, now: u64) -> (r: Ask)
        ensures
            ({
                let s = old(self)@.on_conclude(old(t)@, i, now);
                final(self)@ == s.turn && final(t)@ == s.tunnel && r@ == s.ask && s.log.len() == 0
            }),
    {
        proof {
            reveal(TurnModel::on_conclude);
        }
        if i >= t.streams.len() {
            return self.over();
        }
        assert(t@.streams[i as int] == t.streams@[i as int]@);
        let udp = t.udp;
        t.streams[i].conclude(udp, now);
        assert(t@.streams =~= old(t)@.streams.update(
            i as int,
            old(t)@.streams[i as int].concluded(udp, now),
        ));
        self.phase = Phase::Stream { stream: i + 1 };
        Ask::Continue
    }

    fn connected(
        &mut self,
        t: &mut Tunnel,
        sid: u32,
        result: Result<(), String>,
        now: u64,
        lines: &mut Vec<String>,
    ) -> (r: Ask)
        ensures
            ({
                let s = old(self)@.on_connected(
                    old(t)@.on_opened(sid, crate::tunnel::attempt(result), now),
                );
                &&& final(self)@ == s.turn
                &&& final(t)@ == s.tunnel
                &&& r@ == s.ask
                &&& crate::text::texts(final(lines)@) == crate::text::texts(old(lines)@) + s.log
            }),
    {
        let ghost o = t@.on_opened(sid, crate::tunnel::attempt(result), now);
        let action = t.opened(sid, result, now, lines);
        self.act(action, Ghost(o.tunnel), Ghost(o.log))
    }

    /// Lets go of what is held.
    fn release(&mut self) -> (r: Vec<u8>)
        ensures
            r@ == old(self)@.held,
            final(self)@ == old(self)@.holding(Seq::empty()),
    {
        let mut r: Vec<u8> = Vec::new();
        core::mem::swap(&mut r, &mut self.held);
        r
    }

    fn flow_connected(&mut self, t: &mut Tunnel, sid: u32, ok: bool, now: u64) -> (r: Ask)
        ensures
            ({
                let s = old(self)@.holding(Seq::empty()).on_connected(
                    old(t)@.on_flow_opened(sid, ok, old(self)@.held, now),
                );
                final(self)@ == s.turn && final(t)@ == s.tunnel && r@ == s.ask && s.log.len() == 0
            }),
    {
        let payload = self.release();
        let ghost o = t@.on_flow_opened(sid, ok, payload@, now);
        let action = t.flow_opened(sid, ok, payload.as_slice(), now);
        self.act(action, Ghost(o.tunnel), Ghost(o.log))
    }

    fn offered(&mut self, t: &mut Tunnel, next: Next, ok: bool) -> (r: Ask)
        ensures
            ({
                let s = old(self)@.on_offered(old(t)@, next, ok);
                final(self)@ == s.turn && final(t)@ == s.tunnel && r@ == s.ask && s.log.len() == 0
            }),
    {
        proof {
            reveal(TurnModel::on_offered);
        }
        let frame = self.release();
        if !ok {
            t.refused(frame);
        }
        self.phase = Phase::Outbox { next };
        Ask::Continue
    }

    fn sent_tcp(&mut self, t: &mut Tunnel, i: usize, left: usize, ok: bool) -> (r: Ask)
        ensures
            ({
                let s = old(self)@.on_tcp_sent(old(t)@, i, left, ok);
                final(self)@ == s.turn && final(t)@ == s.tunnel && r@ == s.ask && s.log.len() == 0
            }),
    {
        proof {
            reveal(TurnModel::on_tcp_sent);
        }
        if i >= t.streams.len() || self.held.len() < HDR {
            return self.over();
        }
        let frame = self.release();
        self.phase = if t.sent_tcp(i, frame, ok) {
            Phase::Read { stream: i, udp: false, left }
        } else {
            Phase::Conclude { stream: i }
        };
        Ask::Continue
    }

    fn sent_udp(&mut self, t: &mut Tunnel, i: usize, left: usize, count: u64, ok: bool) -> (r: Ask)
        ensures
            ({
                let s = old(self)@.on_udp_sent(old(t)@, i, left, count, ok);
                final(self)@ == s.turn && final(t)@ == s.tunnel && r@ == s.ask && s.log.len() == 0
            }),
    {
        proof {
            reveal(TurnModel::on_udp_sent);
        }
        if i >= t.streams.len() {
            return self.over();
        }
        t.sent_udp(i, count, ok);
        self.phase = Phase::Read { stream: i, udp: true, left };
        Ask::Continue
    }

    /// Takes an event; tells what to do next.
    pub fn step(
        &mut self,
        t: &mut Tunnel,
        event: Event,
        psk: &str,
        now: u64,
        lines: &mut Vec<String>,
    ) -> (r: Ask)
        ensures
            ({
                let s = old(self)@.step(old(t)@, event@, psk@, now);
                &&& final(self)@ == s.turn
                &&& final(t)@ == s.tunnel
                &&& r@ == s.ask
                &&& crate::text::texts(final(lines)@) == crate::text::texts(old(lines)@) + s.log
            }),
    {
        assert(crate::text::texts(lines@) + Seq::<Seq<char>>::empty() =~= crate::text::texts(
            lines@,
        ));
        match self.phase {
            Phase::Start => match event {
                Event::Go => self.retry(t, true),
                _ => self.over(),
            },
            Phase::Retry => match event {
                Event::Sent(ok) => {
                    let _ = t.retried(ok);
                    self.retry(t, ok)
                },
                _ => self.over(),
            },
            Phase::Receive => match event {
                Event::Messages(ms) => {
                    self.inbox = ms;
                    self.phase = Phase::Inbox;
                    Ask::Continue
                },
                _ => self.over(),
            },
            Phase::Inbox => match event {
                Event::Go => self.take_message(t, psk, now, lines),
                _ => self.over(),
            },
            Phase::Opening { sid } => match event {
                Event::Opened(r) => self.connected(t, sid, r, now, lines),
                _ => self.over(),
            },
            Phase::OpeningFlow { sid } => match event {
                Event::Opened(r) => self.flow_connected(t, sid, r.is_ok(), now),
                _ => self.over(),
            },
            Phase::Outbox { next } => match event {
                Event::Go => self.send_next(t, next),
                _ => self.over(),
            },
            Phase::Offering { next } => match event {
                Event::Sent(ok) => self.offered(t, next, ok),
                _ => self.over(),
            },
            Phase::Stream { stream } => match event {
                Event::Go => self.start_stream(t, stream, lines),
                _ => self.over(),
            },
            Phase::Writing { stream } => match event {
                Event::Wrote(w) => self.take_write(t, stream, w),
                _ => self.over(),
            },
            Phase::Settle { stream } => match event {
                Event::Go => self.settle(t, stream),
                _ => self.over(),
            },
            Phase::Read { stream, udp, left } => match event {
                Event::Go => self.read(stream, udp, left, Ghost(t@)),
                _ => self.over(),
            },
            Phase::Reading { stream, udp, left } => match event {
                Event::Data(d) => {
                    if udp {
                        self.take_udp(t, stream, left, &d, now)
                    } else {
                        self.take_tcp(t, stream, left, &d)
                    }
                },
                Event::Ended(e) => self.end_read(t, stream, udp, e),
                _ => self.over(),
            },
            Phase::SendingTcp { stream, left } => match event {
                Event::Sent(ok) => self.sent_tcp(t, stream, left, ok),
                _ => self.over(),
            },
            Phase::SendingUdp { stream, left, count } => match event {
                Event::Sent(ok) => self.sent_udp(t, stream, left, count, ok),
                _ => self.over(),
            },
            Phase::Conclude { stream } => match event {
                Event::Go => self.conclude(t, stream, now),
                _ => self.over(),
            },
            Phase::End => self.over(),
        }
    }
}

} // verus!
