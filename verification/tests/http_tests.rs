use steam_tunnel::http::{
    answer, get_bool, get_port, get_u64, handle, handle_post, host_ok, read_command, xst_ok, Header,
    Method, Reply,
};
use steam_tunnel::json::{parse_body, Json};
use steam_tunnel::state::{new_shared, Command, Config, PortSpec, SharedInner};

fn obj(fields: Vec<(&str, Json)>) -> Json {
    Json::Object(fields.into_iter().map(|(k, v)| (k.to_string(), v)).collect())
}

fn text(s: &str) -> Json {
    Json::Text(s.to_string())
}

fn num(n: u64) -> Json {
    Json::Number(Some(n))
}

fn headers(h: &[(&str, &str)]) -> Vec<Header> {
    h.iter().map(|(n, v)| Header { name: n.to_string(), value: v.to_string() }).collect()
}

fn shared() -> SharedInner {
    new_shared(Config::default())
}

fn body_of(r: &Reply) -> (u16, &str) {
    match r {
        Reply::Json { status, body } => (*status, body),
        _ => panic!("no JSON"),
    }
}

fn error(path: &str, v: &Json) -> &'static str {
    match read_command(path, v) {
        Err(e) => e,
        Ok(_) => panic!("accepted"),
    }
}

#[test]
fn bodies_are_read_as_json() {
    let v = parse_body("{\"port\": 80, \"peer\": \"765\", \"udp\": true, \"x\": [1.5, null, -1]}");
    assert_eq!(get_u64(&v, "port"), Some(80));
    assert_eq!(get_u64(&v, "peer"), Some(765));
    assert!(get_bool(&v, "udp"));
    match &v {
        Json::Object(f) => match &f.iter().find(|f| f.0 == "x").unwrap().1 {
            Json::Array(a) => {
                assert!(matches!(a[0], Json::Number(None)));
                assert!(matches!(a[1], Json::Null));
                assert!(matches!(a[2], Json::Number(None)));
            }
            _ => panic!("no list"),
        },
        _ => panic!("no object"),
    }
    assert!(matches!(parse_body("{"), Json::Null));
    assert!(matches!(parse_body(""), Json::Null));
}

#[test]
fn numbers_and_ports() {
    let v = obj(vec![("a", num(65535)), ("b", num(65536)), ("c", num(0)), ("d", text(" 80 "))]);
    assert_eq!(get_port(&v, "a"), Some(65535));
    assert_eq!(get_port(&v, "b"), None);
    assert_eq!(get_u64(&v, "b"), Some(65536));
    assert_eq!(get_port(&v, "c"), None);
    assert_eq!(get_port(&v, "d"), Some(80));
    assert_eq!(get_u64(&v, "missing"), None);
    assert_eq!(get_u64(&Json::Null, "a"), None);
    assert_eq!(get_u64(&obj(vec![("a", Json::Bool(true))]), "a"), None);
    assert!(!get_bool(&v, "a"));
}

#[test]
fn share_commands() {
    let v = obj(vec![
        ("port", num(80)),
        ("target", text(" nas.local:8096 ")),
        ("label", text(" NAS ")),
        ("udp", Json::Bool(true)),
    ]);
    match read_command("/api/share", &v) {
        Ok(Command::Share { port, udp, target, label }) => {
            assert_eq!((port, udp), (80, true));
            assert_eq!(target.as_deref(), Some("nas.local:8096"));
            assert_eq!(label, "NAS");
        }
        _ => panic!("no share"),
    }
    match read_command("/api/share", &obj(vec![("port", num(80)), ("target", text("  "))])) {
        Ok(Command::Share { udp, target, label, .. }) => {
            assert!(!udp && target.is_none() && label.is_empty());
        }
        _ => panic!("no share"),
    }
    for bad in ["nas", ":80", "nas:", "nas:x", "nas:65536"] {
        let v = obj(vec![("target", text(bad))]);
        assert_eq!(error("/api/share", &v), "target must be host:port", "{bad}");
    }
    for good in ["[::1]:80", "nas:0", "a:+80"] {
        let v = obj(vec![("port", num(1)), ("target", text(good))]);
        assert!(read_command("/api/share", &v).is_ok(), "{good}");
    }
    assert_eq!(error("/api/share", &obj(vec![])), "invalid port");
}

#[test]
fn the_other_commands() {
    let v = obj(vec![("port", num(80)), ("udp", Json::Bool(true))]);
    assert!(matches!(
        read_command("/api/unshare", &v),
        Ok(Command::Unshare { port: 80, udp: true })
    ));
    assert_eq!(error("/api/unshare", &Json::Null), "invalid port");
    let v = obj(vec![("peer", text("7656")), ("remote_port", num(80))]);
    assert!(matches!(
        read_command("/api/connect", &v),
        Ok(Command::Connect { peer: 7656, remote_port: 80, local_port: 80, udp: false })
    ));
    let v = obj(vec![("peer", num(7)), ("remote_port", num(80)), ("local_port", num(8080))]);
    assert!(matches!(
        read_command("/api/connect", &v),
        Ok(Command::Connect { local_port: 8080, .. })
    ));
    assert_eq!(error("/api/connect", &Json::Null), "invalid remote port");
    assert_eq!(error("/api/connect", &obj(vec![("remote_port", num(1))])), "invalid steam id");
    let v = obj(vec![("id", num(4))]);
    assert!(matches!(
        read_command("/api/stop_mapping", &v),
        Ok(Command::StopMapping { id: 4 })
    ));
    assert!(matches!(
        read_command("/api/dismiss_invite", &v),
        Ok(Command::DismissInvite { id: 4 })
    ));
    assert_eq!(error("/api/stop_mapping", &Json::Null), "invalid id");
    assert_eq!(error("/api/dismiss_invite", &Json::Null), "invalid id");
    assert_eq!(error("/api/nothing", &v), "unknown endpoint");
}

#[test]
fn invite_commands() {
    let v = obj(vec![
        ("peer", num(7)),
        (
            "ports",
            Json::Array(vec![
                obj(vec![("port", num(80))]),
                obj(vec![("port", num(53)), ("udp", Json::Bool(true))]),
            ]),
        ),
        ("label", text("game ")),
    ]);
    match read_command("/api/invite", &v) {
        Ok(Command::Invite { peer, ports, label }) => {
            assert_eq!(peer, 7);
            assert_eq!(
                ports,
                vec![PortSpec { port: 80, udp: false }, PortSpec { port: 53, udp: true }]
            );
            assert_eq!(label, "game");
        }
        _ => panic!("no invite"),
    }
    match read_command("/api/invite", &obj(vec![("peer", num(7)), ("port", num(9))])) {
        Ok(Command::Invite { ports, .. }) => {
            assert_eq!(ports, vec![PortSpec { port: 9, udp: false }])
        }
        _ => panic!("no invite"),
    }
    let bad = obj(vec![("ports", Json::Array(vec![obj(vec![("port", num(0))])]))]);
    assert_eq!(error("/api/invite", &bad), "invalid port in ports");
    assert_eq!(error("/api/invite", &Json::Null), "invalid port");
    assert_eq!(error("/api/invite", &obj(vec![("port", num(1))])), "invalid steam id");
    assert_eq!(
        error("/api/invite", &obj(vec![("ports", Json::Array(vec![]))])),
        "invalid steam id"
    );
}

fn settings(v: &Json) -> (Option<String>, Vec<String>, u32, bool, bool) {
    match read_command("/api/settings", v) {
        Ok(Command::SetSettings {
            psk,
            allowlist,
            send_rate_kib,
            notify_events,
            notify_idle_shares,
        }) => (psk, allowlist, send_rate_kib, notify_events, notify_idle_shares),
        _ => panic!("no settings"),
    }
}

#[test]
fn settings_commands() {
    assert_eq!(settings(&Json::Null), (None, vec![], 0, true, true));
    let v = obj(vec![
        ("psk", text("k")),
        (
            "allowlist",
            Json::Array(vec![num(5), text(" 7 # x "), text(" "), Json::Number(None), Json::Null]),
        ),
        ("send_rate_kib", num(0x1_0000_0003)),
        ("notify_events", Json::Bool(false)),
    ]);
    assert_eq!(
        settings(&v),
        (Some("k".to_string()), vec!["5".to_string(), "7 # x".to_string()], u32::MAX, false, true)
    );
    assert_eq!(settings(&obj(vec![("send_rate_kib", num(0xffff_ffff))])).2, u32::MAX);
    assert_eq!(settings(&obj(vec![("send_rate_kib", num(2048))])).2, 2048);
    assert_eq!(settings(&obj(vec![("psk", text(""))])).0, None);
    let v = obj(vec![("psk", text("k")), ("clear_psk", Json::Bool(true))]);
    assert_eq!(settings(&v).0, Some(String::new()));
}

#[test]
fn hosts() {
    for ok in ["127.0.0.1", "localhost:7788", " [::1]:7788 ", "localhost"] {
        assert!(host_ok(&headers(&[("host", ok)]), 7788), "{ok}");
    }
    for bad in ["evil.example", "localhost:80", "127.0.0.1.evil", "", "LOCALHOST"] {
        assert!(!host_ok(&headers(&[("Host", bad)]), 7788), "{bad}");
    }
    assert!(!host_ok(&headers(&[]), 7788));
    assert!(!host_ok(&headers(&[("Host", "evil"), ("Host", "localhost")]), 7788));
    assert!(xst_ok(&headers(&[("x-st", "")])));
    assert!(!xst_ok(&headers(&[("X-STX", "1")])));
}

#[test]
fn guarded_requests_queue_nothing() {
    let mut s = shared();
    let v = obj(vec![("id", num(4))]);
    let h = headers(&[("Host", "evil"), ("X-ST", "1")]);
    let r = answer(&mut s, Method::Post, "/api/stop_mapping", &h, &v, 7788);
    assert_eq!(body_of(&r), (403, "{\"ok\":false,\"error\":\"bad host\"}"));
    let h = headers(&[("Host", "localhost:7788")]);
    let r = answer(&mut s, Method::Post, "/api/stop_mapping", &h, &v, 7788);
    assert_eq!(body_of(&r), (403, "{\"ok\":false,\"error\":\"missing X-ST header\"}"));
    assert!(s.commands.is_empty());
}

#[test]
fn requests_are_answered() {
    let mut s = shared();
    let h = headers(&[("Host", "localhost:7788"), ("X-ST", "1")]);
    let r = handle(&mut s, Method::Post, "/api/stop_mapping", &h, "{\"id\":4}", 7788);
    assert_eq!(body_of(&r), (200, "{\"ok\":true}"));
    assert!(matches!(s.commands[0], Command::StopMapping { id: 4 }));
    let r = handle(&mut s, Method::Post, "/api/stop_mapping", &h, "not json", 7788);
    assert_eq!(body_of(&r), (400, "{\"ok\":false,\"error\":\"invalid id\"}"));
    assert_eq!(s.commands.len(), 1);
    let null = Json::Null;
    assert!(matches!(answer(&mut s, Method::Get, "/", &h, &null, 7788), Reply::Index));
    assert!(matches!(answer(&mut s, Method::Get, "/api/state", &h, &null, 7788), Reply::State));
    assert!(matches!(answer(&mut s, Method::Get, "/x", &h, &null, 7788), Reply::NotFound));
    assert!(matches!(answer(&mut s, Method::Other, "/", &h, &null, 7788), Reply::NotFound));
    let h = headers(&[("Host", "localhost:7788")]);
    assert!(matches!(answer(&mut s, Method::Get, "/", &h, &null, 7788), Reply::Index));
}

#[test]
fn posting() {
    let mut s = shared();
    assert_eq!(handle_post(&mut s, "/api/nothing", &Json::Null), Err("unknown endpoint"));
    assert!(s.commands.is_empty());
    let v = obj(vec![("id", num(4))]);
    assert_eq!(handle_post(&mut s, "/api/dismiss_invite", &v), Ok(()));
    assert_eq!(s.commands.len(), 1);
}
