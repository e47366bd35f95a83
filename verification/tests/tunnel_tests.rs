use steam_tunnel::auth::psk_mac;
use steam_tunnel::protocol::{
    auth_reply, frame, hello, noauth_reply, SendMode, APP_VERSION, F_CLOSE, F_DATA, F_EOF, F_OPEN,
};
use steam_tunnel::stream::{
    empty_frame, CloseReason, Dir, FlowAddr, LocalSock, ReadEnd, PRE_BUF_CAP,
};
use steam_tunnel::tunnel::{
    new_tunnel, Action, ConnState, Health, TcpStep, Tunnel, HANDSHAKE_TIMEOUT, PING_UNKNOWN,
    QUALITY_UNKNOWN, TUNNEL_LINGER,
};

const NONCE: [u8; 32] = [42; 32];

fn host(udp: bool) -> Tunnel {
    new_tunnel(
        5,
        Dir::In,
        1234,
        25565,
        udp,
        ConnState::AwaitAuth,
        Some(NONCE),
        "127.0.0.1:25565".to_string(),
        0,
    )
}

fn client(udp: bool) -> Tunnel {
    new_tunnel(6, Dir::Out, 99, 25565, udp, ConnState::AwaitHello, None, String::new(), 0)
}

fn active(mut t: Tunnel) -> Tunnel {
    t.state = ConnState::Active;
    t
}

fn sent(a: Action) -> Vec<u8> {
    match a {
        Action::Send(m) => m,
        _ => panic!("nothing to send"),
    }
}

fn frames(a: Action) -> Vec<Vec<u8>> {
    match a {
        Action::Frames(f) => f,
        _ => panic!("no frames"),
    }
}

#[test]
fn a_new_tunnel() {
    let t = host(true);
    assert_eq!(t.next_stream_id, 1);
    assert_eq!(t.ping_ms, PING_UNKNOWN);
    assert_eq!(PING_UNKNOWN, -1);
    assert_eq!(f32::from_bits(t.quality), -1.0);
    assert_eq!(QUALITY_UNKNOWN, (-1.0f32).to_bits());
    assert!(t.streams.is_empty() && t.pending.is_empty() && t.dead.is_none());
}

#[test]
fn the_same_key_connects() {
    for psk in ["", "geheim"] {
        for udp in [false, true] {
            let mut log = Vec::new();
            let (mut h, mut c) = (host(udp), client(udp));
            let greeting = hello(!psk.is_empty(), &NONCE);
            let answer = sent(c.receive(&greeting, psk, 1, &mut log));
            assert_eq!(c.state, ConnState::AwaitOk);
            assert_eq!(c.peer_version, APP_VERSION);
            let ok = sent(h.receive(&answer, psk, 2, &mut log));
            assert_eq!(ok, b"STK3");
            assert_eq!(h.state, ConnState::Active);
            assert_eq!(h.peer_version, APP_VERSION);
            assert!(frames(c.receive(&ok, psk, 3, &mut log)).is_empty());
            assert_eq!(c.state, ConnState::Active);
            assert!(h.dead.is_none() && c.dead.is_none());
            assert_eq!(
                log,
                vec!["Tunnel 5: open, forwarding to 127.0.0.1:25565", "Tunnel 6: established"]
            );
        }
    }
}

#[test]
fn the_answer_proves_the_key() {
    let mut c = client(true);
    let answer = sent(c.receive(&hello(true, &NONCE), "k", 0, &mut Vec::new()));
    assert_eq!(answer, auth_reply(&psk_mac("k", &NONCE), true));
}

#[test]
fn another_key_is_refused() {
    let mut log = Vec::new();
    let mut h = host(false);
    let answer = auth_reply(&psk_mac("guess", &NONCE), false);
    assert!(matches!(h.receive(&answer, "geheim", 0, &mut log), Action::Stop));
    assert_eq!(h.dead, Some(CloseReason::AuthFailed));
    assert_eq!(h.state, ConnState::AwaitAuth);
    assert_eq!(log, vec!["Tunnel 5: auth failed, dropping"]);
}

#[test]
fn a_missing_key_is_refused_on_both_sides() {
    let mut log = Vec::new();
    let mut h = host(false);
    assert!(matches!(h.receive(&noauth_reply(false), "k", 0, &mut log), Action::Stop));
    assert_eq!(h.dead, Some(CloseReason::AuthFailed));
    let mut c = client(false);
    assert!(matches!(c.receive(&hello(true, &NONCE), "", 0, &mut log), Action::Stop));
    assert_eq!(c.dead, Some(CloseReason::PskRequired));
    let mut h = host(false);
    let answer = auth_reply(&psk_mac("k", &NONCE), false);
    assert!(matches!(h.receive(&answer, "", 0, &mut log), Action::Stop));
    assert_eq!(h.dead, Some(CloseReason::AuthFailed));
    assert_eq!(log[1], "Tunnel 6: host requires a pre-shared key, none configured");
}

#[test]
fn another_protocol_is_refused() {
    let mut log = Vec::new();
    let mut h = host(true);
    assert!(matches!(h.receive(&noauth_reply(false), "", 0, &mut log), Action::Stop));
    assert_eq!(h.dead, Some(CloseReason::ProtocolMismatch));
    assert_eq!(log, vec!["Tunnel 5: protocol mismatch — port 25565 is udp here"]);
}

#[test]
fn another_version_is_logged() {
    let mut log = Vec::new();
    let mut h = host(false);
    h.receive(b"STN3\x009.9.9", "", 0, &mut log);
    assert_eq!(h.peer_version, "9.9.9");
    assert_eq!(log[0], format!("Tunnel 5: peer runs v9.9.9 (this side: v{APP_VERSION})"));
    assert_eq!(h.state, ConnState::Active);
    let mut log = Vec::new();
    let mut h = host(false);
    h.receive(b"STN3\x00\xff1", "", 0, &mut log);
    assert_eq!(h.peer_version, "\u{fffd}1");
    let mut log = Vec::new();
    let mut h = host(false);
    h.receive(b"STN3\x00", "", 0, &mut log);
    assert_eq!(log.len(), 1);
}

#[test]
fn bad_handshakes_end_the_tunnel() {
    let mut c = client(false);
    assert!(matches!(c.receive(b"STH2", "", 0, &mut Vec::new()), Action::Stop));
    assert_eq!(c.dead, Some(CloseReason::BadHello));
    let mut c = client(false);
    c.state = ConnState::AwaitOk;
    assert!(matches!(c.receive(b"nope", "", 0, &mut Vec::new()), Action::Stop));
    assert_eq!(c.dead, Some(CloseReason::HandshakeRejected));
    let mut h = host(false);
    assert!(matches!(h.receive(b"", "", 0, &mut Vec::new()), Action::Stop));
    assert_eq!(h.dead, Some(CloseReason::AuthFailed));
    let mut h = active(host(false));
    assert!(matches!(h.receive(&frame(9, 1, &[]), "", 0, &mut Vec::new()), Action::Stop));
    assert_eq!(h.dead, Some(CloseReason::BadFrame));
}

#[test]
fn nothing_passes_before_the_handshake() {
    for f in [frame(F_OPEN, 1, &[]), frame(F_DATA, 1, b"x")] {
        let mut h = host(true);
        assert!(matches!(h.receive(&f, "", 0, &mut Vec::new()), Action::Stop));
        assert!(h.streams.is_empty());
        assert_eq!(h.rx_bytes, 0);
    }
}

#[test]
fn the_host_opens_streams() {
    let mut log = Vec::new();
    let mut h = active(host(false));
    assert!(matches!(
        h.receive(&frame(F_OPEN, 9, &[]), "", 0, &mut log),
        Action::Open { sid: 9 }
    ));
    assert!(matches!(h.opened(9, Ok(()), 4, &mut log), Action::Nothing));
    assert_eq!(h.streams.len(), 1);
    assert_eq!(h.streams_served, 1);
    assert!(h.streams[0].open_sent);
    assert_eq!(h.streams[0].local, Some(LocalSock::Tcp));
    assert!(h.knows_stream(9) && !h.knows_stream(8));
    assert!(matches!(h.receive(&frame(F_OPEN, 9, &[]), "", 0, &mut log), Action::Nothing));
    assert_eq!(log, vec!["Tunnel 5: stream 9 -> 127.0.0.1:25565 open"]);
}

#[test]
fn a_failed_connection_is_told_to_the_peer() {
    let mut log = Vec::new();
    let mut h = active(host(false));
    let close = frames(h.opened(9, Err("target x unreachable: no".to_string()), 4, &mut log));
    assert_eq!(close, vec![empty_frame(F_CLOSE, 9)]);
    assert!(h.streams.is_empty());
    assert_eq!(log, vec!["Tunnel 5: stream 9 failed: target x unreachable: no"]);
}

#[test]
fn the_client_opens_nothing_for_the_peer() {
    let mut c = active(client(true));
    for f in [frame(F_OPEN, 1, &[]), frame(F_DATA, 1, b"x")] {
        assert!(matches!(c.receive(&f, "", 0, &mut Vec::new()), Action::Nothing));
    }
    assert!(c.streams.is_empty());
}

#[test]
fn data_arrives_in_order() {
    let mut h = active(host(false));
    h.opened(1, Ok(()), 0, &mut Vec::new());
    h.opened(2, Ok(()), 0, &mut Vec::new());
    for part in [&b"one "[..], b"two ", b"three"] {
        h.receive(&frame(F_DATA, 2, part), "", 7, &mut Vec::new());
    }
    h.receive(&frame(F_EOF, 2, &[]), "", 7, &mut Vec::new());
    let got: Vec<u8> = h.streams[1].tcp_out.iter().copied().collect();
    assert_eq!(got, b"one two three");
    assert!(h.streams[1].remote_eof);
    assert_eq!(h.rx_bytes, 13);
    assert!(h.streams[0].tcp_out.is_empty());
    h.receive(&frame(F_DATA, 77, b"lost"), "", 7, &mut Vec::new());
    assert_eq!(h.rx_bytes, 13);
    assert!(matches!(h.receive(&[0, 0, 0], "", 7, &mut Vec::new()), Action::Nothing));
}

#[test]
fn a_close_resets_the_stream() {
    let mut h = active(host(false));
    h.opened(1, Ok(()), 0, &mut Vec::new());
    h.receive(&frame(F_CLOSE, 1, &[]), "", 7, &mut Vec::new());
    assert!(h.streams[0].reset && h.streams[0].tcp_eof);
    assert_eq!(h.streams[0].dead, None);
}

#[test]
fn a_datagram_that_outruns_its_opening_opens_the_flow() {
    let mut h = active(host(true));
    let payload = match h.receive(&frame(F_DATA, 3, b"dgram"), "", 1, &mut Vec::new()) {
        Action::OpenFlow { sid: 3, payload } => payload,
        _ => panic!("no flow"),
    };
    match h.flow_opened(3, true, &payload, 2) {
        Action::Datagram { sid: 3, peer: None, payload } => assert_eq!(payload, b"dgram"),
        _ => panic!("no datagram"),
    }
    assert_eq!(h.streams.len(), 1);
    assert_eq!(h.rx_bytes, 5);
    let mut h = active(host(true));
    assert!(matches!(h.flow_opened(3, false, b"x", 2), Action::Nothing));
    assert!(h.streams.is_empty());
}

#[test]
fn what_was_held_back_arrives() {
    let mut c = client(false);
    assert_eq!(c.open_stream(8, LocalSock::Tcp, 0), None);
    assert!(matches!(c.read_tcp(0, b"early "), TcpStep::More));
    assert!(matches!(c.read_tcp(0, b"bird"), TcpStep::More));
    assert_eq!(c.end_tcp(0, ReadEnd::Eof), None);
    c.state = ConnState::AwaitOk;
    let fs = frames(c.receive(b"STK3", "", 0, &mut Vec::new()));
    assert_eq!(fs, vec![empty_frame(F_OPEN, 1), frame(F_DATA, 1, b"early bird"), empty_frame(F_EOF, 1)]);
    assert_eq!(c.tx_bytes, 10);
    let mut h = active(host(false));
    assert!(matches!(h.receive(&fs[0], "", 0, &mut Vec::new()), Action::Open { sid: 1 }));
    h.opened(1, Ok(()), 0, &mut Vec::new());
    for f in &fs[1..] {
        h.receive(f, "", 0, &mut Vec::new());
    }
    let got: Vec<u8> = h.streams[0].tcp_out.iter().copied().collect();
    assert_eq!(got, b"early bird");
    assert!(h.streams[0].remote_eof);
}

#[test]
fn too_much_before_the_handshake_ends_the_stream() {
    let mut c = client(false);
    c.open_stream(8, LocalSock::Tcp, 0);
    assert!(matches!(c.read_tcp(0, &vec![0; PRE_BUF_CAP]), TcpStep::More));
    assert!(matches!(c.read_tcp(0, b"x"), TcpStep::Done));
    assert_eq!(c.streams[0].dead, Some(CloseReason::HandshakeBufferOverflow));
}

#[test]
fn refused_frames_wait_in_order() {
    let mut c = active(client(false));
    let open = c.open_stream(8, LocalSock::Tcp, 0).unwrap();
    assert_eq!(open, empty_frame(F_OPEN, 1));
    c.refused(open);
    assert_eq!(c.open_stream(8, LocalSock::Tcp, 0), None);
    assert_eq!(c.send_rel(vec![1]), None);
    let waiting: Vec<Vec<u8>> = c.pending.iter().cloned().collect();
    assert_eq!(waiting, vec![empty_frame(F_OPEN, 1), empty_frame(F_OPEN, 2), vec![1]]);
    assert!(!c.retried(false));
    assert_eq!(c.pending.len(), 3);
    assert!(c.retried(true));
    assert!(c.retried(true));
    assert!(!c.retried(true));
    assert!(c.pending.is_empty());
    assert_eq!(c.send_rel(vec![2]), Some(vec![2]));
}

#[test]
fn tcp_data_goes_out_in_frames() {
    let mut c = active(client(false));
    c.open_stream(8, LocalSock::Tcp, 0);
    let f = match c.read_tcp(0, b"hello") {
        TcpStep::Send(f) => f,
        _ => panic!("not sent"),
    };
    assert_eq!(f, frame(F_DATA, 1, b"hello"));
    assert!(c.sent_tcp(0, f.clone(), true));
    assert!(!c.sent_tcp(0, f.clone(), false));
    assert_eq!(c.tx_bytes, 10);
    assert_eq!(c.streams[0].tx_bytes, 10);
    assert_eq!(c.pending[0], f);
    assert_eq!(c.end_tcp(0, ReadEnd::Eof), None);
    assert_eq!(c.pending[1], empty_frame(F_EOF, 1));
    assert!(c.streams[0].tcp_eof);
    c.pending.clear();
    assert_eq!(c.end_tcp(0, ReadEnd::Eof), Some(empty_frame(F_EOF, 1)));
    assert_eq!(c.end_tcp(0, ReadEnd::Failed), None);
    assert_eq!(c.streams[0].dead, Some(CloseReason::ReadError));
}

#[test]
fn datagrams_count_only_when_taken() {
    let mut h = active(host(true));
    h.opened(1, Ok(()), 0, &mut Vec::new());
    let (m, mode) = h.read_udp(0, &[1; 1145], 3);
    assert_eq!((m.len(), mode), (1150, SendMode::Unreliable));
    assert_eq!(h.streams[0].last_activity, 3);
    assert_eq!(h.read_udp(0, &[1; 1146], 3).1, SendMode::Reliable);
    h.sent_udp(0, 1145, false);
    assert_eq!(h.tx_bytes, 0);
    h.sent_udp(0, 1145, true);
    assert_eq!((h.tx_bytes, h.streams[0].tx_bytes), (1145, 1145));
}

#[test]
fn datagrams_before_the_handshake_are_lost() {
    let src = FlowAddr { ip: 1, port: 2 };
    let mut c = client(true);
    c.open_stream(8, LocalSock::Udp { peer: Some(src) }, 0);
    assert_eq!(c.client_datagram(0, b"x", 5), None);
    assert_eq!(c.streams[0].last_activity, 5);
    let mut c = active(c);
    c.open_stream(8, LocalSock::Udp { peer: Some(src) }, 0);
    assert_eq!(
        c.client_datagram(1, b"x", 6),
        Some((frame(F_DATA, 2, b"x"), SendMode::Unreliable))
    );
}

#[test]
fn stream_ids_count_up() {
    let mut c = client(false);
    assert_eq!((c.alloc_stream_id(), c.alloc_stream_id()), (1, 2));
    c.open_stream(8, LocalSock::Tcp, 0);
    c.open_stream(8, LocalSock::Tcp, 0);
    assert_eq!((c.streams[0].id, c.streams[1].id), (3, 4));
}

#[test]
fn dead_streams_are_swept() {
    let mut log = Vec::new();
    let mut c = active(client(false));
    for _ in 0..4 {
        c.open_stream(8, LocalSock::Tcp, 0);
    }
    c.streams[0].mark_dead(CloseReason::Finished);
    c.streams[1].mark_dead(CloseReason::ReadError);
    c.streams[3].reset = true;
    c.streams[3].mark_dead(CloseReason::ClosedByPeer);
    assert_eq!(c.sweep(&mut log), vec![empty_frame(F_CLOSE, 2)]);
    assert_eq!(c.streams.len(), 1);
    assert_eq!(c.streams[0].id, 3);
    assert_eq!(
        log,
        vec![
            "Tunnel 6: stream 1 closed: finished",
            "Tunnel 6: stream 2 closed: local socket read error",
            "Tunnel 6: stream 4 closed: closed by peer",
        ]
    );
}

#[test]
fn slow_handshakes_and_idle_tunnels_end() {
    let mut h = host(false);
    h.age(HANDSHAKE_TIMEOUT);
    assert_eq!(h.dead, None);
    h.age(HANDSHAKE_TIMEOUT + 1);
    assert_eq!(h.dead, Some(CloseReason::HandshakeTimeout));
    let mut c = active(client(false));
    c.age(TUNNEL_LINGER);
    assert_eq!(c.dead, None);
    c.age(TUNNEL_LINGER + 1);
    assert_eq!(c.dead, Some(CloseReason::Idle));
    let mut c = active(client(false));
    c.open_stream(8, LocalSock::Tcp, 0);
    c.age(TUNNEL_LINGER + 1);
    assert_eq!((c.dead, c.idle_since), (None, TUNNEL_LINGER + 1));
    let mut h = active(host(false));
    h.age(TUNNEL_LINGER + 1);
    assert_eq!(h.dead, None);
}

#[test]
fn the_first_reason_to_end_stays() {
    let mut h = host(false);
    h.check(Health::Fine);
    assert_eq!(h.dead, None);
    h.check(Health::Problem);
    h.check(Health::ClosedByPeer);
    h.age(u64::MAX);
    h.receive(b"", "", 0, &mut Vec::new());
    assert_eq!(h.dead, Some(CloseReason::ConnectionProblem));
    let mut h = host(false);
    h.check(Health::Gone);
    assert_eq!(h.dead, Some(CloseReason::ConnectionGone));
    let mut h = host(false);
    h.check(Health::ClosedByPeer);
    assert_eq!(h.dead, Some(CloseReason::ClosedByPeer));
}

#[test]
fn rates_count_anew() {
    let mut c = client(false);
    c.tx_bytes = 100;
    c.rx_bytes = 30;
    assert_eq!(c.since_rates(), (100, 30));
    c.set_rates(50, 15);
    assert_eq!((c.tx_rate, c.rx_rate), (50, 15));
    c.tx_bytes = 107;
    assert_eq!(c.since_rates(), (7, 0));
}

#[test]
fn routes() {
    let mut c = client(true);
    assert!(c.is_route(99, 25565, true));
    assert!(!c.is_route(99, 25565, false));
    assert!(!c.is_route(98, 25565, true));
    assert!(!c.is_route(99, 25566, true));
    c.mark_dead(CloseReason::Idle);
    assert!(!c.is_route(99, 25565, true));
    assert!(!host(true).is_route(1234, 25565, true));
}

#[test]
fn the_key_does_not_travel() {
    let key = "a key of some length";
    let mut c = client(false);
    let answer = sent(c.receive(&hello(true, &NONCE), key, 0, &mut Vec::new()));
    assert!(!answer.windows(key.len()).any(|w| w == key.as_bytes()));
    let mut h = host(false);
    assert_eq!(sent(h.receive(&answer, key, 0, &mut Vec::new())), b"STK3");
    let mut c = client(false);
    let open = sent(c.receive(&hello(false, &NONCE), key, 0, &mut Vec::new()));
    assert_eq!(open, noauth_reply(false));
}
