use steam_tunnel::engine::{
    invite_string, parse_invite, peer_allowed, screen, Engine, MAX_UDP_FLOWS, UDP_RESPAWN_DELAY,
};
use steam_tunnel::protocol::{hello, F_OPEN};
use steam_tunnel::state::PortSpec;
use steam_tunnel::stream::{empty_frame, CloseReason, Dir, FlowAddr, LocalSock};
use steam_tunnel::tunnel::ConnState;

const S: u64 = 1_000_000_000;

fn share(e: &mut Engine, port: u16, udp: bool, log: &mut Vec<String>) -> bool {
    match e.plan_share(port, udp, None, log) {
        Some(s) => {
            e.share(s, true, log);
            true
        }
        None => false,
    }
}

fn addr(port: u16) -> FlowAddr {
    FlowAddr { ip: 0x7f000001, port }
}

/// An engine with one mapping, bound.
fn mapped(udp: bool) -> Engine {
    let mut e = Engine::new();
    let mut log = Vec::new();
    if udp {
        e.connect_udp(99, "Anna".to_string(), 80, 8080, 0, &mut log);
        assert!(e.begin_bind(0, 0));
        e.end_bind(0, Ok(()), &mut log);
    } else {
        e.connect_tcp(99, "Anna".to_string(), 80, 8080, Ok(()), 0, &mut log);
    }
    e
}

#[test]
fn invitations_read_back() {
    assert_eq!(invite_string(25565, false), "steam-tunnel-v1:25565");
    assert_eq!(invite_string(53, true), "steam-tunnel-v1:53:udp");
    for port in [0, 1, 80, 65535] {
        for udp in [false, true] {
            assert_eq!(parse_invite(&invite_string(port, udp)), Some(PortSpec { port, udp }));
        }
    }
    assert_eq!(parse_invite("steam-tunnel-v1: 80 "), Some(PortSpec { port: 80, udp: false }));
    assert_eq!(parse_invite("steam-tunnel-v1:65536"), None);
    assert_eq!(parse_invite("steam-tunnel-v1:"), None);
    assert_eq!(parse_invite("steam-tunnel-v2:80"), None);
    assert_eq!(parse_invite("80"), None);
}

#[test]
fn who_gets_in() {
    assert!(peer_allowed(7, &vec![], &vec![7, 8]));
    assert!(!peer_allowed(9, &vec![], &vec![7, 8]));
    assert!(peer_allowed(9, &vec![9], &vec![7]));
    assert!(!peer_allowed(7, &vec![9], &vec![7]));
    let mut log = Vec::new();
    assert!(screen(Some(7), &vec![], &vec![7], &mut log));
    assert!(log.is_empty());
    assert!(!screen(Some(9), &vec![], &vec![7], &mut log));
    assert!(!screen(None, &vec![], &vec![0], &mut log));
    assert_eq!(
        log,
        vec![
            "Rejected connection from 9 (not allowed)",
            "Rejected connection from  (not allowed)"
        ]
    );
}

#[test]
fn a_port_is_shared_once() {
    let mut e = Engine::new();
    let mut log = Vec::new();
    assert!(share(&mut e, 80, false, &mut log));
    assert!(!share(&mut e, 80, false, &mut log));
    assert!(!share(&mut e, 80, true, &mut log));
    assert!(share(&mut e, 81, true, &mut log));
    let s = e.plan_share(82, false, Some("nas:1".to_string()), &mut log).unwrap();
    assert_eq!(s.target, "nas:1");
    e.share(s, false, &mut log);
    assert_eq!(
        log,
        vec![
            "Sharing tcp port 80 -> 127.0.0.1:80",
            "Port 80 is already shared as tcp — one protocol per port",
            "Sharing udp port 81 -> 127.0.0.1:81",
            "Failed to open listen socket for port 82",
        ]
    );
    assert_eq!(e.shares.len(), 2);
}

#[test]
fn unsharing_ends_the_tunnels() {
    let mut e = Engine::new();
    let mut log = Vec::new();
    share(&mut e, 80, false, &mut log);
    share(&mut e, 81, false, &mut log);
    e.greet(0, 7, "Bo", false, 0, &mut log).unwrap();
    e.greet(1, 7, "Bo", false, 0, &mut log).unwrap();
    e.unshare(80, true, &mut log);
    assert_eq!(e.shares.len(), 2);
    e.unshare(80, false, &mut log);
    assert_eq!(e.shares.len(), 1);
    assert_eq!(e.shares[0].port, 81);
    assert_eq!(e.tunnels[0].dead, Some(CloseReason::ShareRemoved));
    assert_eq!(e.tunnels[1].dead, None);
    assert_eq!(log.last().unwrap(), "Stopped sharing port 80");
}

#[test]
fn a_peer_is_greeted() {
    let mut e = Engine::new();
    let mut log = Vec::new();
    share(&mut e, 80, true, &mut log);
    let h = e.connected(0, 7, "Bo", Some([4; 32]), true, 5, &mut log).unwrap();
    assert_eq!(h, hello(true, &[4; 32]));
    let t = &e.tunnels[0];
    assert_eq!((t.id, t.dir, t.peer, t.port, t.udp), (1, Dir::In, 7, 80, true));
    assert_eq!((t.state, t.nonce, t.created), (ConnState::AwaitAuth, Some([4; 32]), 5));
    assert_eq!(t.target, "127.0.0.1:80");
    assert_eq!(e.connected(0, 7, "Bo", None, true, 5, &mut log), None);
    assert_eq!(e.tunnels.len(), 1);
    assert_eq!(
        log[1..],
        ["Incoming tunnel from Bo to port 80", "OS random generator unavailable, dropping connection"]
    );
    let h = e.greet(0, 7, "Bo", false, 5, &mut log).unwrap();
    assert_eq!(h[4], 0);
    assert_eq!(h[5..37], e.tunnels[1].nonce.unwrap());
}

#[test]
fn a_peer_that_leaves() {
    let mut e = Engine::new();
    let mut log = Vec::new();
    share(&mut e, 80, false, &mut log);
    e.greet(0, 7, "Bo", false, 0, &mut log);
    e.greet(0, 8, "Cy", false, 0, &mut log);
    e.disconnected(7, 81);
    assert_eq!(e.tunnels[0].dead, None);
    e.disconnected(7, 80);
    assert_eq!(e.tunnels[0].dead, Some(CloseReason::PeerDisconnected));
    assert_eq!(e.tunnels[1].dead, None);
}

#[test]
fn invitations_replace_each_other() {
    let mut e = Engine::new();
    let mut log = Vec::new();
    e.invited(7, "Bo".to_string(), "steam-tunnel-v1:80", &mut log);
    e.invited(7, "Bo".to_string(), "steam-tunnel-v1:80:udp", &mut log);
    e.invited(7, "Bob".to_string(), "steam-tunnel-v1:80", &mut log);
    e.invited(7, "Bo".to_string(), "+connect something", &mut log);
    assert_eq!(e.invites.len(), 2);
    assert!(e.invites[0].udp);
    assert_eq!((e.invites[1].id, e.invites[1].from_name.as_str()), (3, "Bob"));
    assert_eq!(e.invites[1].from, "7");
    assert_eq!(log[2], "Bob invites you to connect to their port 80");
    assert_eq!(log.len(), 3);
    e.dismiss_invite(3);
    assert_eq!(e.invites.len(), 1);
    e.dismiss_invite(77);
    assert_eq!(e.invites.len(), 1);
}

#[test]
fn mapping_ports() {
    let mut e = Engine::new();
    let mut log = Vec::new();
    e.connect_tcp(99, "Anna".to_string(), 80, 8080, Ok(()), 0, &mut log);
    e.connect_udp(99, "Anna".to_string(), 53, 5353, 0, &mut log);
    e.connect_tcp(99, "Anna".to_string(), 80, 80, Err("in use".to_string()), 0, &mut log);
    assert_eq!(e.mappings.len(), 2);
    assert!(e.mappings[0].bound && !e.mappings[1].bound);
    assert_eq!((e.mappings[0].id, e.mappings[1].id, e.next_id), (1, 2, 3));
    assert_eq!(
        log,
        vec![
            "Mapping localhost:8080 -> Anna:80",
            "Mapping localhost:5353 -> Anna:53 (udp)",
            "Cannot bind localhost:80: in use",
        ]
    );
}

#[test]
fn removing_a_mapping_ends_its_streams() {
    let mut e = mapped(false);
    let mut log = Vec::new();
    e.ensure_out_tunnel(99, 80, false, true, 0);
    e.accept_tcp(0, 0, 0, &mut log);
    e.tunnels[0].open_stream(55, LocalSock::Tcp, 0);
    e.stop_mapping(1, &mut log);
    assert!(e.mappings.is_empty());
    assert_eq!(e.tunnels[0].streams[0].dead, Some(CloseReason::MappingRemoved));
    assert_eq!(e.tunnels[0].streams[1].dead, None);
    assert_eq!(log.last().unwrap(), "Mapping 1 removed");
}

#[test]
fn tunnels_are_reused() {
    let mut e = Engine::new();
    assert_eq!(e.route(99, 80, false), None);
    assert_eq!(e.ensure_out_tunnel(99, 80, false, false, 0), None);
    assert_eq!(e.ensure_out_tunnel(99, 80, false, true, 0), Some(0));
    assert_eq!(e.ensure_out_tunnel(99, 80, false, true, 0), Some(0));
    assert_eq!(e.ensure_out_tunnel(99, 80, true, true, 0), Some(1));
    assert_eq!(e.tunnels.len(), 2);
    assert_eq!(e.tunnels[0].state, ConnState::AwaitHello);
    e.tunnels[0].mark_dead(CloseReason::Idle);
    assert_eq!(e.ensure_out_tunnel(99, 80, false, true, 0), Some(2));
    assert_eq!(e.route(99, 80, false), Some(2));
}

#[test]
fn local_connections_open_streams() {
    let mut e = mapped(false);
    let mut log = Vec::new();
    e.ensure_out_tunnel(99, 80, false, true, 0);
    assert_eq!(e.accept_tcp(0, 0, 7, &mut log), None);
    assert_eq!(log, vec!["Opening tunnel to Anna:80 for local client"]);
    assert!(!e.tunnels[0].streams[0].open_sent);
    e.tunnels[0].state = ConnState::Active;
    assert_eq!(e.accept_tcp(0, 0, 8, &mut log), Some(empty_frame(F_OPEN, 2)));
    let st = &e.tunnels[0].streams[1];
    assert_eq!((st.id, st.mapping_id, st.local, st.open_sent), (2, Some(1), Some(LocalSock::Tcp), true));
    assert_eq!(e.tunnels[0].streams_served, 2);
    assert_eq!(log.len(), 1);
}

#[test]
fn udp_mappings_bind_and_connect_with_a_delay() {
    let mut e = Engine::new();
    let mut log = Vec::new();
    e.connect_udp(99, "Anna".to_string(), 80, 8080, 10 * S, &mut log);
    assert!(!e.begin_route(0, 10 * S));
    assert!(e.begin_bind(0, 10 * S));
    e.end_bind(0, Err("in use".to_string()), &mut log);
    assert_eq!(log[1], "Cannot bind udp localhost:8080: in use");
    assert!(!e.begin_bind(0, 12 * S));
    assert!(e.begin_bind(0, 10 * S + UDP_RESPAWN_DELAY));
    e.end_bind(0, Ok(()), &mut log);
    assert!(!e.begin_bind(0, 90 * S));
    assert!(!e.begin_route(0, 13 * S));
    assert!(e.begin_route(0, 16 * S));
    assert!(!e.begin_route(0, 16 * S));
    e.ensure_out_tunnel(99, 80, true, true, 16 * S);
    assert!(!e.begin_route(0, 90 * S));
    assert!(!mapped(false).begin_bind(0, 90 * S));
}

#[test]
fn datagrams_find_their_flow() {
    let mut e = mapped(true);
    assert!(e.dispatch(0, addr(1), 0).is_none());
    e.ensure_out_tunnel(99, 80, true, true, 0);
    e.tunnels[0].state = ConnState::Active;
    let f = e.dispatch(0, addr(1), 5).unwrap();
    assert_eq!((f.tunnel, f.stream, f.open), (0, 0, Some(empty_frame(F_OPEN, 1))));
    let f = e.dispatch(0, addr(1), 6).unwrap();
    assert_eq!((f.tunnel, f.stream, f.open), (0, 0, None));
    let f = e.dispatch(0, addr(2), 6).unwrap();
    assert_eq!((f.stream, f.open.is_some()), (1, true));
    assert_eq!(e.tunnels[0].streams[1].local, Some(LocalSock::Udp { peer: Some(addr(2)) }));
    e.tunnels[0].streams[0].mark_dead(CloseReason::FlowIdle);
    assert_eq!(e.dispatch(0, addr(1), 7).unwrap().stream, 2);
}

#[test]
fn datagrams_wait_while_a_frame_waits() {
    let mut e = mapped(true);
    assert!(e.reads_datagram(0, 0));
    e.ensure_out_tunnel(99, 80, true, true, 0);
    assert!(e.reads_datagram(0, 63));
    assert!(!e.reads_datagram(0, 64));
    e.tunnels[0].pending.push_back(empty_frame(F_OPEN, 1));
    assert!(!e.reads_datagram(0, 0));
    e.tunnels[0].mark_dead(CloseReason::Idle);
    assert!(e.reads_datagram(0, 0));
}

#[test]
fn flows_are_bounded() {
    let mut e = mapped(true);
    e.ensure_out_tunnel(99, 80, true, true, 0);
    for p in 0..MAX_UDP_FLOWS as u16 {
        assert!(e.dispatch(0, addr(p), 0).is_some());
    }
    assert!(e.dispatch(0, addr(9999), 0).is_none());
    assert!(e.dispatch(0, addr(3), 0).is_some());
    assert_eq!(e.tunnels[0].streams.len(), MAX_UDP_FLOWS);
}

#[test]
fn shares_are_opened_anew() {
    let mut e = Engine::new();
    let mut log = Vec::new();
    for p in 1..4 {
        share(&mut e, p, false, &mut log);
    }
    e.reshare(&vec![true, false, true], &mut log);
    let ports: Vec<u16> = e.shares.iter().map(|s| s.port).collect();
    assert_eq!(ports, vec![1, 3]);
    assert_eq!(log.last().unwrap(), "Send rate updated (applies to new tunnels)");
}

#[test]
fn ended_tunnels_are_reaped() {
    let mut e = Engine::new();
    let mut log = Vec::new();
    for p in 1..5 {
        e.ensure_out_tunnel(99, p, false, true, 0);
    }
    e.tunnels[1].mark_dead(CloseReason::Idle);
    e.tunnels[2].mark_dead(CloseReason::ConnectionGone);
    e.tunnels[3].streams_served = 1;
    e.tunnels[3].mark_dead(CloseReason::Idle);
    assert_eq!(e.reap(&mut log).unwrap().id, 2);
    assert!(log.is_empty());
    assert_eq!(e.reap(&mut log).unwrap().id, 3);
    assert_eq!(e.reap(&mut log).unwrap().id, 4);
    assert!(e.reap(&mut log).is_none());
    assert_eq!(log, vec!["Tunnel 3 closed: connection gone", "Tunnel 4 closed: idle"]);
    assert_eq!(e.tunnels.len(), 1);
}

#[test]
fn ids_are_not_used_twice() {
    let mut e = mapped(false);
    let mut log = Vec::new();
    e.ensure_out_tunnel(99, 80, false, true, 0);
    e.invited(7, "Bo".to_string(), "steam-tunnel-v1:80", &mut log);
    share(&mut e, 81, false, &mut log);
    e.greet(0, 7, "Bo", false, 0, &mut log);
    assert_eq!((e.mappings[0].id, e.tunnels[0].id, e.invites[0].id, e.tunnels[1].id), (1, 2, 3, 4));
}
