use steam_tunnel::state::{
    default_ui_port, new_shared, Command, Config, HistoryRow, Snapshot, CONFIG_PATH,
};

fn config(lines: &[&str]) -> Config {
    Config { allowlist: lines.iter().map(|l| l.to_string()).collect(), ..Config::default() }
}

fn history(ts: u64) -> HistoryRow {
    HistoryRow {
        ts,
        dir: "in".to_string(),
        udp: false,
        peer: "1".to_string(),
        peer_name: "p".to_string(),
        port: 1,
        duration_secs: 0,
        tx_bytes: 0,
        rx_bytes: 0,
        streams: 0,
        reason: "idle".to_string(),
    }
}

#[test]
fn the_default_configuration() {
    let c = Config::default();
    assert_eq!(c.ui_port, 7788);
    assert_eq!(default_ui_port(), 7788);
    assert!(c.psk.is_empty() && c.allowlist.is_empty());
    assert_eq!(c.send_rate_kib, 0);
    assert_eq!(CONFIG_PATH, "steam-tunnel.json");
}

#[test]
fn the_allowlist_reads_leading_digits() {
    let c = config(&[
        "76561197960287930",
        "  76561197960287931 # Anna",
        "76561197960287932x",
        "# comment",
        "",
        "x7656",
        "99999999999999999999",
        "-5",
        "+7",
    ]);
    assert_eq!(c.allowlist_ids(), vec![76561197960287930, 76561197960287931, 76561197960287932]);
}

#[test]
fn the_first_snapshot() {
    let mut c = config(&["1"]);
    c.psk = "k".to_string();
    c.send_rate_kib = 5;
    let s = new_shared(c);
    assert_eq!(s.snapshot.version, "0.1.0");
    assert!(s.snapshot.psk_set && !s.snapshot.steam_ok);
    assert_eq!(s.snapshot.allowlist, vec!["1"]);
    assert_eq!(s.snapshot.send_rate_kib, 5);
    assert!(s.commands.is_empty() && s.snapshot.log.is_empty());
}

#[test]
fn the_log_is_bounded() {
    let mut s = Snapshot::default_with(&Config::default());
    for i in 0..205 {
        s.push_log(i.to_string());
    }
    assert_eq!(s.log.len(), 200);
    assert_eq!(s.log[0], "5");
    assert_eq!(s.log[199], "204");
}

#[test]
fn the_history_is_bounded() {
    let mut s = Snapshot::default_with(&Config::default());
    for i in 0..5 {
        s.push_history(history(i), 3);
    }
    let kept: Vec<u64> = s.history.iter().map(|r| r.ts).collect();
    assert_eq!(kept, vec![2, 3, 4]);
}

#[test]
fn steam_comes_and_goes() {
    let mut s = Snapshot::default_with(&Config::default());
    s.steam_failed("no client");
    assert!(!s.steam_ok);
    assert_eq!(
        s.steam_error,
        "Steam init failed: no client. Is the Steam client running and signed in?"
    );
    s.steam_ready();
    assert!(s.steam_ok && s.steam_error.is_empty());
    s.set_me("Anna".to_string(), 76561197960287930);
    assert_eq!((s.me.name.as_str(), s.me.steam_id.as_str()), ("Anna", "76561197960287930"));
}

#[test]
fn settings_keep_set_and_clear_the_key() {
    let mut s = new_shared(Config::default());
    assert!(s.set_settings(Some("k".to_string()), vec!["7".to_string()], 9));
    assert_eq!(s.config.psk, "k");
    assert!(s.snapshot.psk_set);
    assert_eq!(s.snapshot.allowlist, vec!["7"]);
    assert_eq!((s.config.send_rate_kib, s.snapshot.send_rate_kib), (9, 9));
    assert!(!s.set_settings(None, Vec::new(), 9));
    assert_eq!(s.config.psk, "k");
    assert!(s.config.allowlist.is_empty());
    assert!(!s.set_settings(Some(String::new()), Vec::new(), 9));
    assert!(s.config.psk.is_empty() && !s.snapshot.psk_set);
    assert_eq!(s.config.ui_port, 7788);
}

#[test]
fn commands_queue_up() {
    let mut s = new_shared(Config::default());
    s.push_command(Command::StopMapping { id: 1 });
    s.push_command(Command::DismissInvite { id: 2 });
    let cmds = s.take_commands();
    assert!(matches!(cmds[0], Command::StopMapping { id: 1 }));
    assert!(matches!(cmds[1], Command::DismissInvite { id: 2 }));
    assert!(s.commands.is_empty());
}
