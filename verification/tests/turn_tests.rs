use std::collections::VecDeque;
use steam_tunnel::protocol::{frame, F_CLOSE, F_DATA, F_EOF, F_OPEN, MAX_READS_PER_TICK};
use steam_tunnel::stream::{empty_frame, CloseReason, Dir, LocalSock, ReadEnd, WriteOutcome};
use steam_tunnel::tunnel::{new_tunnel, ConnState, Tunnel};
use steam_tunnel::turn::{Ask, Event, Turn};

fn host(udp: bool) -> Tunnel {
    new_tunnel(
        5,
        Dir::In,
        1234,
        80,
        udp,
        ConnState::Active,
        Some([0; 32]),
        "127.0.0.1:80".to_string(),
        0,
    )
}

fn client() -> Tunnel {
    new_tunnel(6, Dir::Out, 99, 80, false, ConnState::Active, None, String::new(), 0)
}

/// A scripted outside: what Steam and the local socket do, and what they saw.
struct World {
    accepts: VecDeque<bool>,
    inbox: Vec<Vec<u8>>,
    reads: VecDeque<Event>,
    connects: bool,
    wire: Vec<Vec<u8>>,
    local: Vec<u8>,
    datagrams: Vec<Vec<u8>>,
    shut: usize,
    local_at_shut: usize,
    reads_made: usize,
    log: Vec<String>,
}

impl World {
    fn new() -> World {
        World {
            accepts: VecDeque::new(),
            inbox: Vec::new(),
            reads: VecDeque::new(),
            connects: true,
            wire: Vec::new(),
            local: Vec::new(),
            datagrams: Vec::new(),
            shut: 0,
            local_at_shut: 0,
            reads_made: 0,
            log: Vec::new(),
        }
    }

    fn offer(&mut self, m: Vec<u8>) -> Event {
        let ok = self.accepts.pop_front().unwrap_or(true);
        if ok {
            self.wire.push(m);
        }
        Event::Sent(ok)
    }

    fn run(&mut self, t: &mut Tunnel, now: u64) {
        let mut turn = Turn::new();
        let mut event = Event::Go;
        for _ in 0..10_000 {
            event = match turn.step(t, event, "", now, &mut self.log) {
                Ask::Continue => Event::Go,
                Ask::Offer(m) => self.offer(m),
                Ask::OfferDatagram { message, .. } => self.offer(message),
                Ask::Receive => Event::Messages(self.inbox.drain(..).collect()),
                Ask::Send(m) => {
                    self.wire.push(m);
                    Event::Go
                }
                Ask::Open { .. } => Event::Opened(if self.connects {
                    Ok(())
                } else {
                    Err("no route".to_string())
                }),
                Ask::Deliver { payload, .. } => {
                    self.datagrams.push(payload);
                    Event::Go
                }
                Ask::Write { stream } => {
                    let n = t.streams[stream].tcp_out.len().min(4);
                    self.local.extend(t.streams[stream].tcp_out.iter().take(n));
                    Event::Wrote(WriteOutcome::Wrote(n))
                }
                Ask::ShutWrite { .. } => {
                    self.shut += 1;
                    self.local_at_shut = self.local.len();
                    Event::Go
                }
                Ask::ReadTcp { .. } | Ask::ReadUdp { .. } => {
                    self.reads_made += 1;
                    self.reads.pop_front().unwrap_or(Event::Ended(ReadEnd::WouldBlock))
                }
                Ask::Finished => return,
            };
        }
        panic!("the turn does not end");
    }
}

#[test]
fn an_idle_turn_does_nothing() {
    let mut w = World::new();
    let mut t = host(false);
    w.run(&mut t, 1);
    assert!(w.wire.is_empty() && w.log.is_empty() && t.dead.is_none());
}

#[test]
fn waiting_frames_go_first_and_in_order() {
    let mut w = World::new();
    let mut t = client();
    for i in 0..3u8 {
        t.refused(vec![i]);
    }
    w.accepts = VecDeque::from(vec![true, false]);
    w.run(&mut t, 1);
    assert_eq!(w.wire, vec![vec![0]]);
    assert_eq!(t.pending.len(), 2);
    w.run(&mut t, 2);
    assert_eq!(w.wire, vec![vec![0], vec![1], vec![2]]);
}

#[test]
fn no_socket_is_read_while_frames_wait() {
    let mut w = World::new();
    let mut t = client();
    t.open_stream(1, LocalSock::Tcp, 0);
    t.refused(vec![9]);
    w.accepts = VecDeque::from(vec![false]);
    w.reads = VecDeque::from(vec![Event::Data(b"x".to_vec())]);
    w.run(&mut t, 1);
    assert_eq!(w.reads_made, 0);
    w.run(&mut t, 2);
    assert_eq!(w.wire, vec![vec![9], frame(F_DATA, 1, b"x")]);
}

#[test]
fn no_datagram_is_read_while_frames_wait() {
    let mut w = World::new();
    let mut t = host(true);
    w.inbox = vec![frame(F_DATA, 4, b"ping")];
    w.run(&mut t, 1);
    assert_eq!(w.reads_made, 1);
    t.refused(vec![9]);
    w.accepts = VecDeque::from(vec![false]);
    w.reads = VecDeque::from(vec![Event::Data(b"pong".to_vec())]);
    w.run(&mut t, 2);
    assert_eq!(w.reads_made, 1);
    assert!(w.wire.is_empty());
    w.run(&mut t, 3);
    assert_eq!(w.wire, vec![vec![9], frame(F_DATA, 4, b"pong")]);
}

#[test]
fn a_whole_turn_drops_the_dead_streams() {
    let mut w = World::new();
    let mut t = client();
    for _ in 0..5 {
        t.open_stream(1, LocalSock::Tcp, 0);
    }
    t.streams[0].mark_dead(CloseReason::MappingRemoved);
    t.streams[4].tcp_eof = true;
    w.inbox = vec![empty_frame(F_CLOSE, 3), empty_frame(F_EOF, 5)];
    w.accepts = VecDeque::from(vec![false]);
    w.run(&mut t, 1);
    let left: Vec<u32> = t.streams.iter().map(|st| st.id).collect();
    assert_eq!(left, vec![2, 4]);
    assert!(t.dead.is_none() && t.streams.iter().all(|st| st.dead.is_none()));
    assert_eq!(
        w.log,
        vec![
            "Tunnel 6: stream 1 closed: mapping removed",
            "Tunnel 6: stream 3 closed: closed by peer",
            "Tunnel 6: stream 5 closed: finished",
        ]
    );
    assert!(w.wire.is_empty());
    assert_eq!(t.pending, VecDeque::from(vec![empty_frame(F_CLOSE, 1)]));
    w.run(&mut t, 2);
    assert_eq!(w.wire, vec![empty_frame(F_CLOSE, 1)]);
    assert_eq!(w.log.len(), 3);
}

#[test]
fn a_whole_connection_on_the_host() {
    let mut w = World::new();
    let mut t = host(false);
    w.inbox = vec![
        empty_frame(F_OPEN, 1),
        frame(F_DATA, 1, b"GET / "),
        frame(F_DATA, 1, b"HTTP"),
        empty_frame(F_EOF, 1),
    ];
    w.reads = VecDeque::from(vec![
        Event::Data(b"200".to_vec()),
        Event::Ended(ReadEnd::WouldBlock),
    ]);
    w.run(&mut t, 1);
    assert_eq!(w.local, b"GET / HTTP");
    assert_eq!(w.shut, 1);
    assert_eq!(w.wire, vec![frame(F_DATA, 1, b"200")]);
    w.reads = VecDeque::from(vec![Event::Ended(ReadEnd::Eof)]);
    w.run(&mut t, 2);
    assert_eq!(w.wire[1], empty_frame(F_EOF, 1));
    assert!(t.streams.is_empty());
    assert_eq!(
        w.log,
        vec!["Tunnel 5: stream 1 -> 127.0.0.1:80 open", "Tunnel 5: stream 1 closed: finished"]
    );
    assert_eq!((t.rx_bytes, t.tx_bytes, t.streams_served), (10, 3, 1));
}

#[test]
fn a_refused_connection_is_closed() {
    let mut w = World::new();
    w.connects = false;
    let mut t = host(false);
    w.inbox = vec![empty_frame(F_OPEN, 1)];
    w.accepts = VecDeque::from(vec![false]);
    w.run(&mut t, 1);
    assert_eq!(t.pending[0], empty_frame(F_CLOSE, 1));
    assert_eq!(w.log, vec!["Tunnel 5: stream 1 failed: no route"]);
}

#[test]
fn a_stream_gets_its_share_of_reads() {
    let mut w = World::new();
    let mut t = client();
    t.open_stream(1, LocalSock::Tcp, 0);
    w.reads = (0..20).map(|i| Event::Data(vec![i])).collect();
    w.run(&mut t, 1);
    assert_eq!(w.reads_made, MAX_READS_PER_TICK);
    assert_eq!(t.tx_bytes, MAX_READS_PER_TICK as u64);
    let sent: Vec<u8> = w.wire.iter().map(|f| f[5]).collect();
    assert_eq!(sent, (0..MAX_READS_PER_TICK as u8).collect::<Vec<u8>>());
}

#[test]
fn a_refusal_stops_the_reading() {
    let mut w = World::new();
    let mut t = client();
    t.open_stream(1, LocalSock::Tcp, 0);
    w.reads = (0..5).map(|i| Event::Data(vec![i])).collect();
    w.accepts = VecDeque::from(vec![true, false]);
    w.run(&mut t, 1);
    assert_eq!(w.reads_made, 2);
    assert_eq!(t.pending[0], frame(F_DATA, 1, &[1]));
    w.run(&mut t, 2);
    let sent: Vec<u8> = w.wire.iter().map(|f| f[5]).collect();
    assert_eq!(sent, vec![0, 1, 2, 3, 4]);
}

#[test]
fn a_refusal_stops_the_reading_of_later_streams() {
    let mut w = World::new();
    let mut t = client();
    t.open_stream(1, LocalSock::Tcp, 0);
    t.open_stream(1, LocalSock::Tcp, 0);
    w.reads = (0..2).map(|i| Event::Data(vec![i])).collect();
    w.accepts = VecDeque::from(vec![false]);
    w.run(&mut t, 1);
    assert_eq!(w.reads_made, 1);
    assert_eq!(t.pending, VecDeque::from(vec![frame(F_DATA, 1, &[0])]));
    w.reads = VecDeque::from(vec![
        Event::Ended(ReadEnd::WouldBlock),
        Event::Data(vec![1]),
    ]);
    w.run(&mut t, 2);
    assert_eq!(w.wire, vec![frame(F_DATA, 1, &[0]), frame(F_DATA, 2, &[1])]);
}

#[test]
fn data_is_delivered_in_order_and_in_full() {
    let mut w = World::new();
    let mut t = client();
    t.open_stream(1, LocalSock::Tcp, 0);
    t.open_stream(1, LocalSock::Tcp, 0);
    t.streams[0].tcp_out = b"old ".iter().copied().collect();
    w.inbox = vec![
        frame(F_DATA, 1, b"abcdef"),
        frame(F_DATA, 2, b""),
        frame(F_DATA, 9, b"nobody"),
        frame(F_DATA, 1, b"gh"),
    ];
    w.run(&mut t, 1);
    assert_eq!(w.local, b"old abcdefgh");
    assert_eq!((t.streams[0].rx_bytes, t.streams[1].rx_bytes, t.rx_bytes), (8, 0, 8));
    assert!(t.streams[0].tcp_out.is_empty());
}

#[test]
fn half_close_and_then_a_silent_end() {
    let mut w = World::new();
    let mut t = client();
    t.open_stream(1, LocalSock::Tcp, 0);
    t.streams[0].tcp_out = b"the rest".iter().copied().collect();
    w.inbox = vec![empty_frame(F_EOF, 1)];
    w.run(&mut t, 1);
    assert_eq!(w.local, b"the rest");
    assert_eq!((w.shut, w.local_at_shut), (1, 8));
    assert_eq!(t.streams.len(), 1);
    assert!(t.streams[0].wr_shutdown && t.streams[0].dead.is_none());
    assert!(w.wire.is_empty() && t.pending.is_empty() && w.log.is_empty());
    t.age(2);
    w.reads = VecDeque::from(vec![Event::Ended(ReadEnd::Eof)]);
    w.run(&mut t, 2);
    assert_eq!(w.wire, vec![empty_frame(F_EOF, 1)]);
    assert_eq!(w.shut, 1);
    assert!(t.streams.is_empty() && t.pending.is_empty());
    assert_eq!(w.log, vec!["Tunnel 6: stream 1 closed: finished"]);
}

#[test]
fn datagrams_pass_in_both_directions() {
    let mut w = World::new();
    let mut t = host(true);
    w.inbox = vec![frame(F_DATA, 4, b"ping")];
    w.reads = VecDeque::from(vec![Event::Data(b"pong".to_vec())]);
    w.run(&mut t, 1);
    assert_eq!(w.datagrams, vec![b"ping".to_vec()]);
    assert_eq!(w.wire, vec![frame(F_DATA, 4, b"pong")]);
    assert_eq!((t.rx_bytes, t.tx_bytes), (4, 4));
}

#[test]
fn a_bad_frame_ends_the_turn() {
    let mut w = World::new();
    let mut t = host(false);
    w.inbox = vec![frame(7, 1, b""), empty_frame(F_OPEN, 1)];
    w.run(&mut t, 1);
    assert_eq!(t.dead, Some(CloseReason::BadFrame));
    assert!(t.streams.is_empty());
}

#[test]
fn a_read_error_closes_the_stream_for_the_peer() {
    let mut w = World::new();
    let mut t = client();
    t.open_stream(1, LocalSock::Tcp, 0);
    w.reads = VecDeque::from(vec![Event::Ended(ReadEnd::Failed)]);
    w.run(&mut t, 1);
    assert_eq!(w.wire, vec![empty_frame(F_CLOSE, 1)]);
    assert_eq!(w.log, vec!["Tunnel 6: stream 1 closed: local socket read error"]);
}

#[test]
fn an_event_out_of_place_ends_the_turn() {
    let mut t = client();
    let mut turn = Turn::new();
    assert!(matches!(
        turn.step(&mut t, Event::Sent(true), "", 0, &mut Vec::new()),
        Ask::Finished
    ));
    assert!(matches!(turn.step(&mut t, Event::Go, "", 0, &mut Vec::new()), Ask::Finished));
}

#[test]
fn every_stream_stays_in_order_through_refusals() {
    let mut w = World::new();
    let mut t = client();
    for _ in 0..3 {
        t.open_stream(1, LocalSock::Tcp, 0);
    }
    let mut next: u8 = 0;
    for round in 0..40u64 {
        w.reads = (0..3)
            .flat_map(|_| {
                next = next.wrapping_add(1);
                [Event::Data(vec![next]), Event::Ended(ReadEnd::WouldBlock)]
            })
            .collect();
        w.accepts = (0..12).map(|k| (round * 7 + k * 5) % 4 != 0).collect();
        w.run(&mut t, round);
    }
    w.accepts.clear();
    w.reads.clear();
    w.run(&mut t, 99);
    assert!(t.pending.is_empty());
    for sid in 1..4u32 {
        let payloads: Vec<u8> =
            w.wire.iter().filter(|f| f[1..5] == sid.to_be_bytes()).map(|f| f[5]).collect();
        assert!(!payloads.is_empty());
        assert!(payloads.windows(2).all(|p| p[0] < p[1]), "{payloads:?}");
    }
    assert_eq!(t.tx_bytes, w.wire.len() as u64);
}

#[test]
fn both_ends_of_a_tunnel() {
    let mut here = World::new();
    let mut there = World::new();
    let mut c = client();
    let mut h = host(false);
    let open = c.open_stream(1, LocalSock::Tcp, 0).unwrap();
    here.wire.push(open);
    let text: Vec<u8> = (0..200u8).collect();
    here.reads = text.chunks(30).map(|p| Event::Data(p.to_vec())).collect();
    here.reads.push_back(Event::Ended(ReadEnd::Eof));
    for now in 0..12 {
        here.accepts = VecDeque::from(vec![true, false, true]);
        here.run(&mut c, now);
        there.inbox = here.wire.drain(..).collect();
        there.run(&mut h, now);
    }
    assert_eq!(there.local, text);
    assert_eq!(there.shut, 1);
    assert_eq!((c.tx_bytes, h.rx_bytes), (200, 200));
}
