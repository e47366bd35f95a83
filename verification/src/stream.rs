//! One TCP connection or UDP flow, multiplexed over a tunnel.
use std::collections::VecDeque;
use vstd::prelude::*;

use crate::protocol::{extend, frame, CHUNK, F_DATA, F_EOF, F_OPEN};

verus! {

/// Bytes that a client may send before its tunnel is open.
pub const PRE_BUF_CAP: usize = 4194304;

/// Bytes that may wait for a local socket.
pub const TCP_OUT_CAP: usize = 67108864;

/// Silence after which a UDP flow ends, in nanoseconds.
pub const UDP_FLOW_IDLE: u64 = 120_000_000_000;

/// Which side of a tunnel this is.
#[derive(Clone, Copy, PartialEq, Eq, Structural, Debug)]
pub enum Dir {
    /// A peer connected to a port shared here.
    In,
    /// This side connected to a peer's port.
    Out,
}

/// The source address of a local datagram.
#[derive(Clone, Copy, PartialEq, Eq, Structural, Debug)]
pub struct FlowAddr {
    pub ip: u32,
    pub port: u16,
}

/// The kind of a stream's local socket.
#[derive(Clone, Copy, PartialEq, Eq, Structural, Debug)]
pub enum LocalSock {
    Tcp,
    /// On the host a socket connected to the target, without a peer; on the
    /// client the mapping's socket, with the address that replies go to.
    Udp { peer: Option<FlowAddr> },
}

/// Why a stream or a tunnel ended.
#[derive(Clone, Copy, PartialEq, Eq, Structural, Debug)]
pub enum CloseReason {
    AuthFailed,
    BadFrame,
    BadHello,
    BufferOverflow,
    ClosedByPeer,
    ConnectionGone,
    ConnectionProblem,
    Finished,
    FlowIdle,
    HandshakeBufferOverflow,
    HandshakeRejected,
    HandshakeTimeout,
    Idle,
    LocalClosed,
    MappingRemoved,
    PeerDisconnected,
    ProtocolMismatch,
    PskRequired,
    ReadError,
    ShareRemoved,
    WriteError,
}

/// The wording of a reason.
pub open spec fn reason_text(r: CloseReason) -> Seq<char> {
    match r {
        CloseReason::AuthFailed => "auth failed"@,
        CloseReason::BadFrame => "bad frame"@,
        CloseReason::BadHello =>
            "bad hello (version mismatch? both sides need the same steam-tunnel release)"@,
        CloseReason::BufferOverflow => "local socket too slow, buffer overflow"@,
        CloseReason::ClosedByPeer => "closed by peer"@,
        CloseReason::ConnectionGone => "connection gone"@,
        CloseReason::ConnectionProblem => "connection problem"@,
        CloseReason::Finished => "finished"@,
        CloseReason::FlowIdle => "flow idle"@,
        CloseReason::HandshakeBufferOverflow => "handshake buffer overflow"@,
        CloseReason::HandshakeRejected => "handshake rejected"@,
        CloseReason::HandshakeTimeout => "handshake timeout"@,
        CloseReason::Idle => "idle"@,
        CloseReason::LocalClosed => "local socket closed"@,
        CloseReason::MappingRemoved => "mapping removed"@,
        CloseReason::PeerDisconnected => "peer disconnected"@,
        CloseReason::ProtocolMismatch => "protocol mismatch"@,
        CloseReason::PskRequired => "psk required"@,
        CloseReason::ReadError => "local socket read error"@,
        CloseReason::ShareRemoved => "share removed"@,
        CloseReason::WriteError => "local socket write error"@,
    }
}

impl CloseReason {
    /// The wording of a reason.
    pub fn text(self) -> (r: &'static str)
        ensures
            r@ == reason_text(self),
    {
        match self {
            CloseReason::AuthFailed => "auth failed",
            CloseReason::BadFrame => "bad frame",
            CloseReason::BadHello =>
                "bad hello (version mismatch? both sides need the same steam-tunnel release)",
            CloseReason::BufferOverflow => "local socket too slow, buffer overflow",
            CloseReason::ClosedByPeer => "closed by peer",
            CloseReason::ConnectionGone => "connection gone",
            CloseReason::ConnectionProblem => "connection problem",
            CloseReason::Finished => "finished",
            CloseReason::FlowIdle => "flow idle",
            CloseReason::HandshakeBufferOverflow => "handshake buffer overflow",
            CloseReason::HandshakeRejected => "handshake rejected",
            CloseReason::HandshakeTimeout => "handshake timeout",
            CloseReason::Idle => "idle",
            CloseReason::LocalClosed => "local socket closed",
            CloseReason::MappingRemoved => "mapping removed",
            CloseReason::PeerDisconnected => "peer disconnected",
            CloseReason::ProtocolMismatch => "protocol mismatch",
            CloseReason::PskRequired => "psk required",
            CloseReason::ReadError => "local socket read error",
            CloseReason::ShareRemoved => "share removed",
            CloseReason::WriteError => "local socket write error",
        }
    }
}

/// Nanoseconds from `since` to `now`, 0 if `since` is later.
pub open spec fn elapsed_ns(now: u64, since: u64) -> u64 {
    if now >= since {
        (now - since) as u64
    } else {
        0
    }
}

/// Nanoseconds from `since` to `now`, 0 if `since` is later.
pub fn elapsed(now: u64, since: u64) -> (r: u64)
    ensures
        r == elapsed_ns(now, since),
{
    if now >= since {
        now - since
    } else {
        0
    }
}

/// How a write to a local socket went.
#[derive(Clone, Copy, PartialEq, Eq, Structural, Debug)]
pub enum WriteOutcome {
    /// So many bytes were taken; 0 means that the socket is closed.
    Wrote(usize),
    WouldBlock,
    Failed,
}

/// How a read from a local socket went, other than with bytes.
#[derive(Clone, Copy, PartialEq, Eq, Structural, Debug)]
pub enum ReadEnd {
    /// The local side will send nothing more.
    Eof,
    WouldBlock,
    Failed,
}

/// What to do on a stream's local socket after the buffer was flushed.
#[derive(Clone, Copy, PartialEq, Eq, Structural, Debug)]
pub enum LocalRead {
    /// Nothing to read.
    Skip,
    /// Read the TCP socket.
    Tcp,
    /// Receive datagrams from the flow's own socket.
    Udp,
}

/// A stream as a value.
#[verifier::ext_equal]
pub struct StreamModel {
    pub id: u32,
    pub mapping_id: Option<u64>,
    pub local: Option<LocalSock>,
    pub tcp_out: Seq<u8>,
    pub pre_buf: Seq<u8>,
    pub open_sent: bool,
    pub tcp_eof: bool,
    pub remote_eof: bool,
    pub wr_shutdown: bool,
    pub reset: bool,
    pub last_activity: u64,
    pub tx_bytes: u64,
    pub rx_bytes: u64,
    pub dead: Option<CloseReason>,
}

/// The pieces of at most `CHUNK` bytes that `buf` is sent in.
pub open spec fn chunks_of(buf: Seq<u8>) -> Seq<Seq<u8>>
    decreases buf.len(),
{
    if buf.len() == 0 {
        Seq::empty()
    } else if buf.len() <= CHUNK {
        seq![buf]
    } else {
        seq![buf.take(CHUNK as int)] + chunks_of(buf.skip(CHUNK as int))
    }
}

/// Data frames for a list of payloads.
pub open spec fn data_frames(id: u32, payloads: Seq<Seq<u8>>) -> Seq<Seq<u8>> {
    payloads.map_values(|p: Seq<u8>| crate::protocol::frame_bytes(F_DATA, id, p))
}

impl StreamModel {
    /// A stream that has carried nothing yet.
    pub open spec fn fresh(
        id: u32,
        mapping_id: Option<u64>,
        local: Option<LocalSock>,
        now: u64,
    ) -> StreamModel {
        StreamModel {
            id,
            mapping_id,
            local,
            tcp_out: Seq::empty(),
            pre_buf: Seq::empty(),
            open_sent: false,
            tcp_eof: false,
            remote_eof: false,
            wr_shutdown: false,
            reset: false,
            last_activity: now,
            tx_bytes: 0,
            rx_bytes: 0,
            dead: None,
        }
    }

    /// The first reason to end a stream is the one that counts.
    pub open spec fn ended(self, why: CloseReason) -> StreamModel {
        if self.dead is None {
            StreamModel { dead: Some(why), ..self }
        } else {
            self
        }
    }

    /// After data arrived from the peer: counted, and for a TCP socket
    /// buffered in order, unless that overflows the buffer.
    pub open spec fn delivered(self, payload: Seq<u8>, now: u64) -> StreamModel {
        let counted = StreamModel {
            rx_bytes: self.rx_bytes.wrapping_add(payload.len() as u64),
            last_activity: now,
            ..self
        };
        if self.local == Some(LocalSock::Tcp) {
            if self.tcp_out.len() + payload.len() > TCP_OUT_CAP {
                counted.ended(CloseReason::BufferOverflow)
            } else {
                StreamModel { tcp_out: self.tcp_out + payload, ..counted }
            }
        } else {
            counted
        }
    }

    /// After a write to the local socket.
    pub open spec fn written(self, outcome: WriteOutcome) -> StreamModel {
        match outcome {
            WriteOutcome::Wrote(n) => if n == 0 {
                StreamModel { dead: Some(CloseReason::LocalClosed), ..self }
            } else {
                StreamModel { tcp_out: self.tcp_out.skip(n as int), ..self }
            },
            WriteOutcome::WouldBlock => self,
            WriteOutcome::Failed => StreamModel { dead: Some(CloseReason::WriteError), ..self },
        }
    }

    /// Whether the write half of the local socket is to be shut down now: the
    /// peer has finished and everything is delivered.
    pub open spec fn half_closes(self) -> bool {
        &&& self.dead is None
        &&& self.local == Some(LocalSock::Tcp)
        &&& self.remote_eof
        &&& self.tcp_out.len() == 0
        &&& !self.wr_shutdown
        &&& !self.reset
    }

    /// After the flush: half-closed where due, and ended where the peer reset
    /// the stream and nothing is left to deliver.
    pub open spec fn settled(self) -> StreamModel {
        if self.dead is Some {
            self
        } else {
            let s = if self.half_closes() {
                StreamModel { wr_shutdown: true, ..self }
            } else {
                self
            };
            if s.reset && s.tcp_out.len() == 0 {
                s.ended(CloseReason::ClosedByPeer)
            } else {
                s
            }
        }
    }

    /// What to read for a settled stream, and nothing while a frame waits: TCP
    /// until its end, datagrams on the host only.
    pub open spec fn reads(self, dir: Dir, pending_empty: bool) -> LocalRead {
        if self.dead is Some {
            LocalRead::Skip
        } else {
            match self.local {
                Some(LocalSock::Tcp) => if !self.tcp_eof && pending_empty {
                    LocalRead::Tcp
                } else {
                    LocalRead::Skip
                },
                Some(LocalSock::Udp { peer }) => if dir == Dir::In && pending_empty {
                    LocalRead::Udp
                } else {
                    LocalRead::Skip
                },
                None => LocalRead::Skip,
            }
        }
    }

    /// After bytes were read that cannot be sent yet.
    pub open spec fn held_back(self, data: Seq<u8>) -> StreamModel {
        if self.pre_buf.len() + data.len() > PRE_BUF_CAP {
            self.ended(CloseReason::HandshakeBufferOverflow)
        } else {
            StreamModel { pre_buf: self.pre_buf + data, ..self }
        }
    }

    /// After a read from the local TCP socket that gave no bytes.
    pub open spec fn read_ended(self, end: ReadEnd) -> StreamModel {
        match end {
            ReadEnd::Eof => StreamModel { tcp_eof: true, ..self },
            ReadEnd::WouldBlock => self,
            ReadEnd::Failed => self.ended(CloseReason::ReadError),
        }
    }

    /// At the end of a turn: silent flows expire, and a TCP stream that both
    /// sides finished and that is delivered ends cleanly.
    pub open spec fn concluded(self, udp: bool, now: u64) -> StreamModel {
        if self.dead is Some {
            self
        } else if udp {
            if elapsed_ns(now, self.last_activity) > UDP_FLOW_IDLE {
                self.ended(CloseReason::FlowIdle)
            } else {
                self
            }
        } else if self.tcp_eof && self.remote_eof && self.tcp_out.len() == 0 {
            self.ended(CloseReason::Finished)
        } else {
            self
        }
    }

    /// Whether a stream waits for its tunnel to open.
    pub open spec fn waits(self) -> bool {
        !self.open_sent && self.dead is None
    }

    /// After its tunnel opened: what was held back has been sent.
    pub open spec fn activated(self) -> StreamModel {
        if self.waits() {
            StreamModel {
                open_sent: true,
                pre_buf: Seq::empty(),
                tx_bytes: self.tx_bytes.wrapping_add(self.pre_buf.len() as u64),
                ..self
            }
        } else {
            self
        }
    }

    /// The frames that opening a waiting stream sends: the opening, what was
    /// held back, and the end if the local side has already finished.
    pub open spec fn opening_frames(self) -> Seq<Seq<u8>> {
        if self.waits() {
            seq![crate::protocol::frame_bytes(F_OPEN, self.id, Seq::empty())] + data_frames(
                self.id,
                chunks_of(self.pre_buf),
            ) + if self.tcp_eof {
                seq![crate::protocol::frame_bytes(F_EOF, self.id, Seq::empty())]
            } else {
                Seq::empty()
            }
        } else {
            Seq::empty()
        }
    }

    /// Whether the peer has to be told that a dead stream is gone: not if it
    /// closed the stream itself, nor if both sides finished.
    pub open spec fn notifies(self) -> bool {
        self.dead is Some && !self.reset && self.dead != Some(CloseReason::Finished)
    }
}

/// One TCP connection or UDP flow. Stream ids are given out by the client.
pub struct Stream {
    pub id: u32,
    /// On the client: the mapping that the stream belongs to.
    pub mapping_id: Option<u64>,
    pub local: Option<LocalSock>,
    /// TCP: bytes from the peer that wait for the local socket.
    pub tcp_out: VecDeque<u8>,
    /// TCP on the client: bytes read before the tunnel was open.
    pub pre_buf: Vec<u8>,
    /// The peer knows of the stream.
    pub open_sent: bool,
    /// The local side has stopped sending.
    pub tcp_eof: bool,
    /// The peer has stopped sending.
    pub remote_eof: bool,
    /// The write half of the local socket is shut down.
    pub wr_shutdown: bool,
    /// The peer closed the stream: deliver what is buffered, then drop it.
    pub reset: bool,
    /// When a datagram was last seen in either direction.
    pub last_activity: u64,
    pub tx_bytes: u64,
    pub rx_bytes: u64,
    pub dead: Option<CloseReason>,
}

impl View for Stream {
    type V = StreamModel;

    open spec fn view(&self) -> StreamModel {
        StreamModel {
            id: self.id,
            mapping_id: self.mapping_id,
            local: self.local,
            tcp_out: self.tcp_out@,
            pre_buf: self.pre_buf@,
            open_sent: self.open_sent,
            tcp_eof: self.tcp_eof,
            remote_eof: self.remote_eof,
            wr_shutdown: self.wr_shutdown,
            reset: self.reset,
            last_activity: self.last_activity,
            tx_bytes: self.tx_bytes,
            rx_bytes: self.rx_bytes,
            dead: self.dead,
        }
    }
}

/// A stream that has carried nothing yet.
pub fn new_stream(id: u32, mapping_id: Option<u64>, local: Option<LocalSock>, now: u64) -> (r:
    Stream)
    ensures
        r@ == StreamModel::fresh(id, mapping_id, local, now),
{
    Stream {
        id,
        mapping_id,
        local,
        tcp_out: VecDeque::new(),
        pre_buf: Vec::new(),
        open_sent: false,
        tcp_eof: false,
        remote_eof: false,
        wr_shutdown: false,
        reset: false,
        last_activity: now,
        tx_bytes: 0,
        rx_bytes: 0,
        dead: None,
    }
}

impl Stream {
    /// Ends the stream; the first reason counts.
    pub fn mark_dead(&mut self, why: CloseReason)
        ensures
            final(self)@ == old(self)@.ended(why),
    {
        if self.dead.is_none() {
            self.dead = Some(why);
        }
    }

    /// Takes data from the peer.
    pub fn deliver(&mut self, payload: &[u8], now: u64)
        ensures
            final(self)@ == old(self)@.delivered(payload@, now),
    {
        self.rx_bytes = self.rx_bytes.wrapping_add(payload.len() as u64);
        self.last_activity = now;
        if let Some(LocalSock::Tcp) = self.local {
            let have: usize = self.tcp_out.len();
            if have > TCP_OUT_CAP || payload.len() > TCP_OUT_CAP - have {
                self.mark_dead(CloseReason::BufferOverflow);
            } else {
                let mut i: usize = 0;
                let ghost start = *self;
                while i < payload.len()
                    invariant
                        i <= payload@.len(),
                        self@ == (StreamModel {
                            tcp_out: start@.tcp_out + payload@.take(i as int),
                            ..start@
                        }),
                    decreases payload@.len() - i,
                {
                    self.tcp_out.push_back(payload[i]);
                    i = i + 1;
                    assert(self@.tcp_out =~= start@.tcp_out + payload@.take(i as int));
                }
                assert(payload@.take(i as int) =~= payload@);
            }
        }
    }

    /// Takes note of a write to the local socket, which is offered the bytes
    /// that wait; tells whether to go on writing.
    pub fn wrote(&mut self, outcome: WriteOutcome) -> (more: bool)
        requires
            outcome matches WriteOutcome::Wrote(n) ==> n <= old(self)@.tcp_out.len(),
        ensures
            final(self)@ == old(self)@.written(outcome),
            more == (outcome matches WriteOutcome::Wrote(n) && n > 0
                && final(self)@.tcp_out.len() > 0),
    {
        match outcome {
            WriteOutcome::Wrote(n) => {
                if n == 0 {
                    self.dead = Some(CloseReason::LocalClosed);
                    false
                } else {
                    let mut i: usize = 0;
                    let ghost start = *self;
                    assert(start@.tcp_out.skip(0) =~= start@.tcp_out);
                    while i < n
                        invariant
                            i <= n <= start@.tcp_out.len(),
                            self@ == (StreamModel {
                                tcp_out: start@.tcp_out.skip(i as int),
                                ..start@
                            }),
                        decreases n - i,
                    {
                        let _ = self.tcp_out.pop_front();
                        i = i + 1;
                        assert(self@.tcp_out =~= start@.tcp_out.skip(i as int));
                    }
                    self.tcp_out.len() > 0
                }
            },
            WriteOutcome::WouldBlock => false,
            WriteOutcome::Failed => {
                self.dead = Some(CloseReason::WriteError);
                false
            },
        }
    }

    /// After the flush: tells whether to shut down the write half of the
    /// local socket, and what to read from it.
    pub fn settle(&mut self, dir: Dir, pending_empty: bool) -> (r: (bool, LocalRead))
        ensures
            final(self)@ == old(self)@.settled(),
            r.0 == old(self)@.half_closes(),
            r.1 == final(self)@.reads(dir, pending_empty),
    {
        if self.dead.is_some() {
            return (false, LocalRead::Skip);
        }
        let drained = self.tcp_out.len() == 0;
        let tcp = match self.local {
            Some(LocalSock::Tcp) => true,
            _ => false,
        };
        let shut = tcp && self.remote_eof && drained && !self.wr_shutdown && !self.reset;
        if shut {
            self.wr_shutdown = true;
        }
        if self.reset && drained {
            self.mark_dead(CloseReason::ClosedByPeer);
            return (shut, LocalRead::Skip);
        }
        let read = match self.local {
            Some(LocalSock::Tcp) => {
                if !self.tcp_eof && pending_empty {
                    LocalRead::Tcp
                } else {
                    LocalRead::Skip
                }
            },
            Some(LocalSock::Udp { peer: _ }) => {
                if dir == Dir::In && pending_empty {
                    LocalRead::Udp
                } else {
                    LocalRead::Skip
                }
            },
            None => LocalRead::Skip,
        };
        (shut, read)
    }

    /// Keeps bytes that cannot be sent yet; tells whether to go on reading.
    pub fn hold_back(&mut self, data: &[u8]) -> (more: bool)
        ensures
            final(self)@ == old(self)@.held_back(data@),
            more == (old(self)@.pre_buf.len() + data@.len() <= PRE_BUF_CAP),
    {
        let have: usize = self.pre_buf.len();
        if have > PRE_BUF_CAP || data.len() > PRE_BUF_CAP - have {
            self.mark_dead(CloseReason::HandshakeBufferOverflow);
            false
        } else {
            extend(&mut self.pre_buf, data);
            true
        }
    }

    /// Takes note of a read that gave no bytes; on the local end of a stream
    /// that the peer knows of, gives the frame that tells the peer.
    pub fn end_read(&mut self, end: ReadEnd) -> (r: Option<Vec<u8>>)
        ensures
            final(self)@ == old(self)@.read_ended(end),
            match r {
                Some(f) => end == ReadEnd::Eof && old(self)@.open_sent && f@
                    == crate::protocol::frame_bytes(F_EOF, old(self)@.id, Seq::empty()),
                None => !(end == ReadEnd::Eof && old(self)@.open_sent),
            },
    {
        match end {
            ReadEnd::Eof => {
                self.tcp_eof = true;
                if self.open_sent {
                    Some(empty_frame(F_EOF, self.id))
                } else {
                    None
                }
            },
            ReadEnd::WouldBlock => None,
            ReadEnd::Failed => {
                self.mark_dead(CloseReason::ReadError);
                None
            },
        }
    }

    /// Ends the stream's turn.
    pub fn conclude(&mut self, udp: bool, now: u64)
        ensures
            final(self)@ == old(self)@.concluded(udp, now),
    {
        if self.dead.is_some() {
            return;
        }
        if udp {
            if elapsed(now, self.last_activity) > UDP_FLOW_IDLE {
                self.mark_dead(CloseReason::FlowIdle);
            }
        } else if self.tcp_eof && self.remote_eof && self.tcp_out.len() == 0 {
            self.mark_dead(CloseReason::Finished);
        }
    }

    /// Opens a stream that waited for its tunnel: the frames that do so are
    /// appended to `out`. Gives the number of bytes that were held back.
    pub fn activate(&mut self, out: &mut Vec<Vec<u8>>) -> (n: u64)
        ensures
            final(self)@ == old(self)@.activated(),
            frames(final(out)@) == frames(old(out)@) + old(self)@.opening_frames(),
            n == if old(self)@.waits() {
                old(self)@.pre_buf.len() as u64
            } else {
                0
            },
    {
        if self.open_sent || self.dead.is_some() {
            assert(frames(out@) + Seq::<Seq<u8>>::empty() =~= frames(out@));
            return 0;
        }
        let ghost was = self@;
        let ghost before = frames(out@);
        let ghost opening = crate::protocol::frame_bytes(F_OPEN, self.id, Seq::empty());
        out.push(empty_frame(F_OPEN, self.id));
        assert(frames(out@) =~= before + seq![opening]);
        self.open_sent = true;
        let mut buf: Vec<u8> = Vec::new();
        core::mem::swap(&mut buf, &mut self.pre_buf);
        let n: u64 = buf.len() as u64;
        push_chunks(self.id, &buf, out);
        self.tx_bytes = self.tx_bytes.wrapping_add(n);
        let ghost data = data_frames(self.id, chunks_of(was.pre_buf));
        assert(frames(out@) == before + seq![opening] + data);
        if self.tcp_eof {
            let ghost eof = crate::protocol::frame_bytes(F_EOF, self.id, Seq::empty());
            out.push(empty_frame(F_EOF, self.id));
            assert(frames(out@) =~= before + seq![opening] + data + seq![eof]);
            assert(before + seq![opening] + data + seq![eof] =~= before + (seq![opening] + data
                + seq![eof]));
        } else {
            assert(frames(out@) =~= before + (seq![opening] + data + Seq::empty()));
        }
        n
    }
}

/// The views of a list of frames.
pub open spec fn frames(v: Seq<Vec<u8>>) -> Seq<Seq<u8>> {
    v.map_values(|f: Vec<u8>| f@)
}

/// A frame without a payload.
pub fn empty_frame(ftype: u8, sid: u32) -> (r: Vec<u8>)
    ensures
        r@ == crate::protocol::frame_bytes(ftype, sid, Seq::empty()),
{
    let none: Vec<u8> = Vec::new();
    frame(ftype, sid, none.as_slice())
}

/// Appends data frames for all of `buf`.
fn push_chunks(id: u32, buf: &Vec<u8>, out: &mut Vec<Vec<u8>>)
    ensures
        frames(final(out)@) == frames(old(out)@) + data_frames(id, chunks_of(buf@)),
{
    let mut at: usize = 0;
    let ghost before = frames(out@);
    let ghost all = chunks_of(buf@);
    assert(buf@.skip(0) =~= buf@);
    assert(before + data_frames(id, all) =~= frames(out@) + data_frames(id, all));
    while at < buf.len()
        invariant
            at <= buf@.len(),
            before + data_frames(id, all) == frames(out@) + data_frames(
                id,
                chunks_of(buf@.skip(at as int)),
            ),
        decreases buf@.len() - at,
    {
        let ghost rest = buf@.skip(at as int);
        let ghost had = frames(out@);
        let end: usize = if buf.len() - at <= CHUNK {
            buf.len()
        } else {
            at + CHUNK
        };
        let piece = vstd::slice::slice_subrange(buf.as_slice(), at, end);
        out.push(frame(F_DATA, id, piece));
        proof {
            let f = crate::protocol::frame_bytes(F_DATA, id, piece@);
            let after = chunks_of(buf@.skip(end as int));
            assert(frames(out@) =~= had.push(f));
            assert(rest.skip(end - at) =~= buf@.skip(end as int));
            if rest.len() <= CHUNK {
                assert(piece@ =~= rest);
            } else {
                assert(piece@ =~= rest.take(CHUNK as int));
            }
            assert(chunks_of(rest) =~= seq![piece@] + after);
            assert(had + data_frames(id, seq![piece@] + after) =~= had.push(f) + data_frames(
                id,
                after,
            ));
        }
        at = end;
    }
    assert(buf@.skip(at as int) =~= Seq::empty());
    assert(frames(out@) + data_frames(id, Seq::empty()) =~= frames(out@));
}

} // verus!
