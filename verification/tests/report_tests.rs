use steam_tunnel::detect::AppPort;
use steam_tunnel::engine::Engine;
use steam_tunnel::report::{
    app_rows, conn_row, due, history_row, in_tunnel, publish, publish_lists, sort_friends,
};
use steam_tunnel::state::{Config, FriendRow, Game, PortSpec, Snapshot};
use steam_tunnel::stream::{CloseReason, LocalSock};
use steam_tunnel::tunnel::ConnState;

const S: u64 = 1_000_000_000;

fn friend(name: &str, id: &str, online: bool, in_tunnel: bool) -> FriendRow {
    FriendRow { name: name.to_string(), steam_id: id.to_string(), online, in_tunnel }
}

fn app(process: &str, port: u16, udp: bool) -> AppPort {
    AppPort { process: process.to_string(), port, udp }
}

#[test]
fn periods() {
    assert!(!due(5 * S, 0, 5 * S));
    assert!(due(5 * S + 1, 0, 5 * S));
    assert!(!due(0, 9, 0));
}

#[test]
fn rows_of_tunnels() {
    let mut e = Engine::new();
    e.ensure_out_tunnel(99, 80, true, true, 10 * S);
    let t = &mut e.tunnels[0];
    t.open_stream(1, LocalSock::Tcp, 0);
    t.tx_bytes = 7;
    t.rx_rate = 3;
    let r = conn_row(t, "Anna".to_string(), 12 * S + 5);
    assert_eq!((r.id, r.dir.as_str(), r.udp, r.port), (1, "out", true, 80));
    assert_eq!((r.peer.as_str(), r.peer_name.as_str(), r.state.as_str()), ("99", "Anna", "handshake"));
    assert_eq!((r.streams, r.ping_ms, f32::from_bits(r.quality)), (1, -1, -1.0));
    assert_eq!((r.tx_bytes, r.rx_rate, r.age_secs), (7, 3, 2));
    t.state = ConnState::Active;
    assert_eq!(conn_row(t, String::new(), 0).state, "active");
    t.mark_dead(CloseReason::ConnectionGone);
    let h = history_row(t, 1234, "Anna".to_string(), 13 * S);
    assert_eq!((h.ts, h.dir.as_str(), h.duration_secs, h.streams), (1234, "out", 3, 1));
    assert_eq!((h.reason.as_str(), h.tx_bytes, h.peer.as_str()), ("connection gone", 7, "99"));
}

#[test]
fn the_engine_is_shown() {
    let mut e = Engine::new();
    let mut log = Vec::new();
    let s = e.plan_share(80, false, None, &mut log).unwrap();
    e.share(s, true, &mut log);
    e.connect_udp(99, "Anna".to_string(), 53, 5353, 0, &mut log);
    e.invited(7, "Bo".to_string(), "steam-tunnel-v1:80:udp", &mut log);
    e.ensure_out_tunnel(99, 53, true, true, 0);
    let row = conn_row(&e.tunnels[0], "Anna".to_string(), 0);
    let mut s = Snapshot::default_with(&Config::default());
    publish(&e, vec![row], &mut s);
    assert_eq!(s.relay_status, "relay access requested");
    assert_eq!((s.shares[0].port, s.shares[0].target.as_str()), (80, "127.0.0.1:80"));
    let m = &s.mappings[0];
    assert_eq!((m.id, m.peer.as_str(), m.peer_name.as_str()), (1, "99", "Anna"));
    assert_eq!((m.remote_port, m.local_port, m.udp), (53, 5353, true));
    assert_eq!((s.invites[0].from.as_str(), s.invites[0].port, s.invites[0].udp), ("7", 80, true));
    assert_eq!(s.conns.len(), 1);
    publish_lists(vec![friend("a", "1", true, false)], Vec::new(), &mut s);
    assert_eq!(s.friends[0].name, "a");
}

#[test]
fn friends_are_sorted_stably() {
    let rows = sort_friends(vec![
        friend("Zoe", "1", false, false),
        friend("Bo", "2", true, false),
        friend("Al", "3", true, false),
        friend("Bo", "4", true, false),
        friend("Cy", "5", true, true),
        friend("Di", "6", false, true),
    ]);
    let ids: Vec<&str> = rows.iter().map(|r| r.steam_id.as_str()).collect();
    assert_eq!(ids, vec!["5", "6", "3", "2", "4", "1"]);
    assert!(in_tunnel(Some(480)));
    assert!(!in_tunnel(Some(481)));
    assert!(!in_tunnel(None));
}

#[test]
fn local_programs_are_matched_and_sorted() {
    let games = vec![
        Game {
            name: "Blocks".to_string(),
            ports: vec![PortSpec { port: 25565, udp: false }, PortSpec { port: 19132, udp: true }],
        },
        Game { name: "Other".to_string(), ports: vec![PortSpec { port: 25565, udp: false }] },
    ];
    let rows = app_rows(
        vec![
            app("", 9000, false),
            app("zsh", 4000, false),
            app("java", 25565, false),
            app("java", 25565, true),
            app("bash", 7788, false),
            app("", 19132, true),
            app("bash", 4001, true),
            app("bash", 4001, false),
        ],
        7788,
        &games,
    );
    let got: Vec<(Option<&str>, &str, u16, bool)> =
        rows.iter().map(|r| (r.game.as_deref(), r.process.as_str(), r.port, r.udp)).collect();
    assert_eq!(
        got,
        vec![
            (Some("Blocks"), "java", 25565, false),
            (Some("Blocks"), "", 19132, true),
            (None, "bash", 4001, true),
            (None, "bash", 4001, false),
            (None, "java", 25565, true),
            (None, "zsh", 4000, false),
            (None, "", 9000, false),
        ]
    );
}
