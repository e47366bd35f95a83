//! Configuration, the commands of the web page, and the snapshot it shows.
use vstd::prelude::*;
use vstd::string::*;

use crate::lists::keep_last;
use crate::log;
use crate::protocol::APP_VERSION;
use crate::text::{chars_of, copy_texts, number, parse_number, trim};

verus! {

/// Where the configuration is kept.
pub const CONFIG_PATH: &'static str = "steam-tunnel.json";

/// Lines that the log keeps.
pub const LOG_KEEP: usize = 200;

/// A configuration as a value.
#[verifier::ext_equal]
pub struct ConfigModel {
    pub psk: Seq<char>,
    pub allowlist: Seq<Seq<char>>,
    pub ui_port: u16,
    pub send_rate_kib: u32,
}

impl ConfigModel {
    /// What is configured unless something else is: no key, no allowlist, the
    /// usual port, and the send rate of Steam.
    pub open spec fn plain() -> ConfigModel {
        ConfigModel { psk: Seq::empty(), allowlist: Seq::empty(), ui_port: 7788, send_rate_kib: 0 }
    }
}

pub struct Config {
    pub psk: String,
    /// SteamID64s, one raw line each; text may follow the number. Empty means
    /// that only Steam friends may connect.
    pub allowlist: Vec<String>,
    pub ui_port: u16,
    /// Limit on the send rate of a connection in KiB/s; 0 keeps Steam's own.
    pub send_rate_kib: u32,
}

impl View for Config {
    type V = ConfigModel;

    open spec fn view(&self) -> ConfigModel {
        ConfigModel {
            psk: self.psk@,
            allowlist: crate::text::texts(self.allowlist@),
            ui_port: self.ui_port,
            send_rate_kib: self.send_rate_kib,
        }
    }
}

/// The port of the web page unless configured otherwise.
pub fn default_ui_port() -> (r: u16)
    ensures
        r == 7788,
{
    7788
}

impl Default for Config {
    fn default() -> (r: Config)
        ensures
            r@ == ConfigModel::plain(),
    {
        let r = Config {
            psk: String::new(),
            allowlist: Vec::new(),
            ui_port: default_ui_port(),
            send_rate_kib: 0,
        };
        assert(r@.allowlist =~= Seq::empty());
        r
    }
}

/// The decimal digits that `s` starts with.
pub open spec fn leading_digits(s: Seq<char>) -> Seq<char>
    decreases s.len(),
{
    if s.len() > 0 && crate::text::is_digit(s[0], 10) {
        seq![s[0]] + leading_digits(s.drop_first())
    } else {
        Seq::empty()
    }
}

/// The SteamID64 that a line of the allowlist stands for, if any.
pub open spec fn id_of_line(line: Seq<char>) -> Option<int> {
    crate::text::parsed_number(
        leading_digits(crate::text::trimmed(line)),
        10,
        u64::MAX as int,
    )
}

/// The SteamID64s of an allowlist, in order; other lines are skipped.
pub open spec fn ids_of(lines: Seq<Seq<char>>) -> Seq<u64>
    decreases lines.len(),
{
    if lines.len() == 0 {
        Seq::empty()
    } else {
        let before = ids_of(lines.drop_last());
        match id_of_line(lines.last()) {
            Some(id) => before.push(id as u64),
            None => before,
        }
    }
}

fn decimal_digit(c: char) -> (r: bool)
    ensures
        r == crate::text::is_digit(c, 10),
{
    let u: u32 = c as u32;
    0x30 <= u && u <= 0x39
}

/// The decimal digits that `s` starts with.
fn digits_ahead<'a>(s: &'a str) -> (r: &'a str)
    ensures
        r@ == leading_digits(s@),
{
    let cs = chars_of(s);
    let mut n: usize = 0;
    assert(cs@.skip(0) =~= cs@);
    while n < cs.len() && decimal_digit(cs[n])
        invariant
            n <= cs@.len(),
            cs@ == s@,
            leading_digits(s@) == s@.take(n as int) + leading_digits(s@.skip(n as int)),
        decreases cs@.len() - n,
    {
        assert(s@.skip(n as int).drop_first() =~= s@.skip(n + 1));
        assert(s@.take(n as int) + (seq![s@[n as int]] + leading_digits(s@.skip(n + 1)))
            =~= s@.take(n + 1) + leading_digits(s@.skip(n + 1)));
        n = n + 1;
    }
    if n < cs.len() {
        assert(s@.skip(n as int)[0] == cs@[n as int]);
    }
    assert(leading_digits(s@.skip(n as int)) =~= Seq::empty());
    assert(s@.take(n as int) + Seq::<char>::empty() =~= s@.take(n as int));
    assert(s@.subrange(0, n as int) =~= s@.take(n as int));
    s.substring_char(0, n)
}

impl Config {
    /// The SteamID64s of the allowlist: the leading digits of each line.
    pub fn allowlist_ids(&self) -> (r: Vec<u64>)
        ensures
            r@ == ids_of(self@.allowlist),
    {
        let mut r: Vec<u64> = Vec::new();
        let mut i: usize = 0;
        let ghost all = self@.allowlist;
        while i < self.allowlist.len()
            invariant
                i <= self.allowlist@.len(),
                all == crate::text::texts(self.allowlist@),
                r@ == ids_of(all.take(i as int)),
            decreases self.allowlist@.len() - i,
        {
            proof {
                assert(all.take(i + 1).drop_last() =~= all.take(i as int));
                assert(all.take(i + 1).last() == self.allowlist@[i as int]@);
            }
            let digits = digits_ahead(trim(self.allowlist[i].as_str()));
            if let Some(id) = parse_number(digits, 10, u64::MAX) {
                r.push(id);
            }
            i = i + 1;
        }
        assert(all.take(i as int) =~= all);
        r
    }
}

proof fn lemma_leading_digits(d: Seq<char>, rest: Seq<char>)
    requires
        crate::text::all_digits(d, 10),
        rest.len() > 0 ==> !crate::text::is_digit(rest[0], 10),
    ensures
        leading_digits(d + rest) == d,
    decreases d.len(),
{
    let s = d + rest;
    if d.len() == 0 {
        assert(s =~= rest);
        assert(leading_digits(rest) =~= d);
    } else {
        assert(crate::text::is_digit(d[0], 10));
        assert(s[0] == d[0]);
        assert forall|i: int| 0 <= i < d.drop_first().len() implies crate::text::is_digit(
            #[trigger] d.drop_first()[i],
            10,
        ) by {
            assert(d.drop_first()[i] == d[i + 1]);
        }
        lemma_leading_digits(d.drop_first(), rest);
        assert(s.drop_first() =~= d.drop_first() + rest);
        assert(seq![d[0]] + d.drop_first() =~= d);
    }
}

/// A line that starts with a SteamID64, whatever follows it that is not a
/// further digit, allows that id.
pub proof fn law_allowlist_line(id: u64, rest: Seq<char>)
    requires
        rest.len() > 0 ==> !crate::text::is_digit(rest[0], 10),
    ensures
        id_of_line(crate::text::decimal(id as nat) + rest) == Some(id as int),
{
    let d = crate::text::decimal(id as nat);
    let t = crate::text::trimmed(d + rest);
    crate::text::lemma_trimmed_numeral(id as nat, rest);
    crate::text::lemma_decimal_digits(id as nat);
    let tail = t.skip(d.len() as int);
    if tail.len() > 0 {
        assert(tail[0] == t[d.len() as int]);
    }
    lemma_leading_digits(d, tail);
    crate::text::law_number_round_trip(id as nat, u64::MAX as nat);
}

/// A port and its protocol.
#[derive(Clone, Copy, PartialEq, Eq, Structural, Debug)]
pub struct PortSpec {
    pub port: u16,
    pub udp: bool,
}

/// Who is signed in to Steam, as a value.
#[verifier::ext_equal]
pub struct SelfModel {
    pub name: Seq<char>,
    pub steam_id: Seq<char>,
}

/// Who is signed in to Steam.
pub struct SelfInfo {
    pub name: String,
    pub steam_id: String,
}

impl View for SelfInfo {
    type V = SelfModel;

    open spec fn view(&self) -> SelfModel {
        SelfModel {
            name: self.name@,
            steam_id: self.steam_id@,
        }
    }
}

/// A friend, as a value.
#[verifier::ext_equal]
pub struct FriendModel {
    pub name: Seq<char>,
    pub steam_id: Seq<char>,
    pub online: bool,
    pub in_tunnel: bool,
}

/// A friend.
pub struct FriendRow {
    pub name: String,
    pub steam_id: String,
    pub online: bool,
    /// In the app that steam-tunnel runs as.
    pub in_tunnel: bool,
}

impl View for FriendRow {
    type V = FriendModel;

    open spec fn view(&self) -> FriendModel {
        FriendModel {
            name: self.name@,
            steam_id: self.steam_id@,
            online: self.online,
            in_tunnel: self.in_tunnel,
        }
    }
}

pub open spec fn friend_models(v: Seq<FriendRow>) -> Seq<FriendModel> {
    v.map_values(|r: FriendRow| r@)
}

/// A shared port, as a value.
#[verifier::ext_equal]
pub struct ShareRowModel {
    pub port: u16,
    pub udp: bool,
    pub target: Seq<char>,
}

/// A shared port.
pub struct ShareRow {
    pub port: u16,
    pub udp: bool,
    /// Where incoming tunnels are forwarded, as `host:port`.
    pub target: String,
}

impl View for ShareRow {
    type V = ShareRowModel;

    open spec fn view(&self) -> ShareRowModel {
        ShareRowModel {
            port: self.port,
            udp: self.udp,
            target: self.target@,
        }
    }
}

pub open spec fn share_rows(v: Seq<ShareRow>) -> Seq<ShareRowModel> {
    v.map_values(|r: ShareRow| r@)
}

/// A peer's port under a local one, as a value.
#[verifier::ext_equal]
pub struct MappingRowModel {
    pub id: u64,
    pub peer: Seq<char>,
    pub peer_name: Seq<char>,
    pub remote_port: u16,
    pub local_port: u16,
    pub udp: bool,
}

/// A peer's port under a local one.
pub struct MappingRow {
    pub id: u64,
    pub peer: String,
    pub peer_name: String,
    pub remote_port: u16,
    pub local_port: u16,
    pub udp: bool,
}

impl View for MappingRow {
    type V = MappingRowModel;

    open spec fn view(&self) -> MappingRowModel {
        MappingRowModel {
            id: self.id,
            peer: self.peer@,
            peer_name: self.peer_name@,
            remote_port: self.remote_port,
            local_port: self.local_port,
            udp: self.udp,
        }
    }
}

pub open spec fn mapping_rows(v: Seq<MappingRow>) -> Seq<MappingRowModel> {
    v.map_values(|r: MappingRow| r@)
}

/// A tunnel, as a value.
#[verifier::ext_equal]
pub struct ConnModel {
    pub id: u64,
    pub dir: Seq<char>,
    pub udp: bool,
    pub peer: Seq<char>,
    pub peer_name: Seq<char>,
    pub peer_version: Seq<char>,
    pub port: u16,
    pub state: Seq<char>,
    pub streams: u64,
    pub ping_ms: i32,
    pub quality: u32,
    pub tx_bytes: u64,
    pub rx_bytes: u64,
    pub tx_rate: u64,
    pub rx_rate: u64,
    pub age_secs: u64,
}

/// A tunnel.
pub struct ConnRow {
    pub id: u64,
    /// `in` for a peer on a shared port, `out` for a mapping.
    pub dir: String,
    pub udp: bool,
    pub peer: String,
    pub peer_name: String,
    pub peer_version: String,
    pub port: u16,
    pub state: String,
    pub streams: u64,
    /// Round-trip time in milliseconds, -1 if not measured yet.
    pub ping_ms: i32,
    /// The bit pattern of a 32-bit float: the worse packet delivery rate.
    pub quality: u32,
    pub tx_bytes: u64,
    pub rx_bytes: u64,
    pub tx_rate: u64,
    pub rx_rate: u64,
    pub age_secs: u64,
}

impl View for ConnRow {
    type V = ConnModel;

    open spec fn view(&self) -> ConnModel {
        ConnModel {
            id: self.id,
            dir: self.dir@,
            udp: self.udp,
            peer: self.peer@,
            peer_name: self.peer_name@,
            peer_version: self.peer_version@,
            port: self.port,
            state: self.state@,
            streams: self.streams,
            ping_ms: self.ping_ms,
            quality: self.quality,
            tx_bytes: self.tx_bytes,
            rx_bytes: self.rx_bytes,
            tx_rate: self.tx_rate,
            rx_rate: self.rx_rate,
            age_secs: self.age_secs,
        }
    }
}

pub open spec fn conn_models(v: Seq<ConnRow>) -> Seq<ConnModel> {
    v.map_values(|r: ConnRow| r@)
}

/// An invitation from a friend, as a value.
#[verifier::ext_equal]
pub struct InviteModel {
    pub id: u64,
    pub from: Seq<char>,
    pub from_name: Seq<char>,
    pub port: u16,
    pub udp: bool,
}

/// An invitation from a friend.
pub struct InviteRow {
    pub id: u64,
    pub from: String,
    pub from_name: String,
    pub port: u16,
    pub udp: bool,
}

impl View for InviteRow {
    type V = InviteModel;

    open spec fn view(&self) -> InviteModel {
        InviteModel {
            id: self.id,
            from: self.from@,
            from_name: self.from_name@,
            port: self.port,
            udp: self.udp,
        }
    }
}

pub open spec fn invite_models(v: Seq<InviteRow>) -> Seq<InviteModel> {
    v.map_values(|r: InviteRow| r@)
}

/// A local program that listens on a port, as a value.
#[verifier::ext_equal]
pub struct AppRowModel {
    pub process: Seq<char>,
    pub port: u16,
    pub udp: bool,
    pub game: Option<Seq<char>>,
}

/// A local program that listens on a port.
pub struct AppRow {
    pub process: String,
    pub port: u16,
    pub udp: bool,
    pub game: Option<String>,
}

impl View for AppRow {
    type V = AppRowModel;

    open spec fn view(&self) -> AppRowModel {
        AppRowModel {
            process: self.process@,
            port: self.port,
            udp: self.udp,
            game: match self.game {
                Some(g) => Some(g@),
                None => None,
            },
        }
    }
}

pub open spec fn app_models(v: Seq<AppRow>) -> Seq<AppRowModel> {
    v.map_values(|r: AppRow| r@)
}

/// A tunnel that has ended, as a value.
#[verifier::ext_equal]
pub struct HistoryModel {
    pub ts: u64,
    pub dir: Seq<char>,
    pub udp: bool,
    pub peer: Seq<char>,
    pub peer_name: Seq<char>,
    pub port: u16,
    pub duration_secs: u64,
    pub tx_bytes: u64,
    pub rx_bytes: u64,
    pub streams: u64,
    pub reason: Seq<char>,
}

/// A tunnel that has ended.
pub struct HistoryRow {
    /// When it ended, in seconds since 1970.
    pub ts: u64,
    pub dir: String,
    pub udp: bool,
    pub peer: String,
    pub peer_name: String,
    pub port: u16,
    pub duration_secs: u64,
    pub tx_bytes: u64,
    pub rx_bytes: u64,
    pub streams: u64,
    pub reason: String,
}

impl View for HistoryRow {
    type V = HistoryModel;

    open spec fn view(&self) -> HistoryModel {
        HistoryModel {
            ts: self.ts,
            dir: self.dir@,
            udp: self.udp,
            peer: self.peer@,
            peer_name: self.peer_name@,
            port: self.port,
            duration_secs: self.duration_secs,
            tx_bytes: self.tx_bytes,
            rx_bytes: self.rx_bytes,
            streams: self.streams,
            reason: self.reason@,
        }
    }
}

pub open spec fn history_models(v: Seq<HistoryRow>) -> Seq<HistoryModel> {
    v.map_values(|r: HistoryRow| r@)
}

/// A game and the ports that it listens on, as a value.
#[verifier::ext_equal]
pub struct GameModel {
    pub name: Seq<char>,
    pub ports: Seq<PortSpec>,
}

/// A game and the ports that it listens on.
pub struct Game {
    pub name: String,
    pub ports: Vec<PortSpec>,
}

impl View for Game {
    type V = GameModel;

    open spec fn view(&self) -> GameModel {
        GameModel {
            name: self.name@,
            ports: self.ports@,
        }
    }
}

pub open spec fn game_models(v: Seq<Game>) -> Seq<GameModel> {
    v.map_values(|r: Game| r@)
}

/// What the web page shows, as a value.
#[verifier::ext_equal]
pub struct SnapshotModel {
    pub version: Seq<char>,
    pub steam_ok: bool,
    pub steam_error: Seq<char>,
    pub relay_status: Seq<char>,
    pub me: SelfModel,
    pub friends: Seq<FriendModel>,
    pub shares: Seq<ShareRowModel>,
    pub mappings: Seq<MappingRowModel>,
    pub conns: Seq<ConnModel>,
    pub invites: Seq<InviteModel>,
    pub apps: Seq<AppRowModel>,
    pub games: Seq<GameModel>,
    pub history: Seq<HistoryModel>,
    pub psk_set: bool,
    pub allowlist: Seq<Seq<char>>,
    pub send_rate_kib: u32,
    pub log: Seq<Seq<char>>,
}

/// What the web page shows.
pub struct Snapshot {
    pub version: String,
    pub steam_ok: bool,
    pub steam_error: String,
    pub relay_status: String,
    pub me: SelfInfo,
    pub friends: Vec<FriendRow>,
    pub shares: Vec<ShareRow>,
    pub mappings: Vec<MappingRow>,
    pub conns: Vec<ConnRow>,
    pub invites: Vec<InviteRow>,
    pub apps: Vec<AppRow>,
    pub games: Vec<Game>,
    pub history: Vec<HistoryRow>,
    pub psk_set: bool,
    pub allowlist: Vec<String>,
    pub send_rate_kib: u32,
    pub log: Vec<String>,
}

impl View for Snapshot {
    type V = SnapshotModel;

    open spec fn view(&self) -> SnapshotModel {
        SnapshotModel {
            version: self.version@,
            steam_ok: self.steam_ok,
            steam_error: self.steam_error@,
            relay_status: self.relay_status@,
            me: self.me@,
            friends: friend_models(self.friends@),
            shares: share_rows(self.shares@),
            mappings: mapping_rows(self.mappings@),
            conns: conn_models(self.conns@),
            invites: invite_models(self.invites@),
            apps: app_models(self.apps@),
            games: game_models(self.games@),
            history: history_models(self.history@),
            psk_set: self.psk_set,
            allowlist: crate::text::texts(self.allowlist@),
            send_rate_kib: self.send_rate_kib,
            log: crate::text::texts(self.log@),
        }
    }
}

impl SnapshotModel {
    /// What is shown before anything has happened.
    pub open spec fn initial(cfg: ConfigModel) -> SnapshotModel {
        SnapshotModel {
            version: APP_VERSION@,
            steam_ok: false,
            steam_error: Seq::empty(),
            relay_status: Seq::empty(),
            me: SelfModel { name: Seq::empty(), steam_id: Seq::empty() },
            friends: Seq::empty(),
            shares: Seq::empty(),
            mappings: Seq::empty(),
            conns: Seq::empty(),
            invites: Seq::empty(),
            apps: Seq::empty(),
            games: Seq::empty(),
            history: Seq::empty(),
            psk_set: cfg.psk.len() > 0,
            allowlist: cfg.allowlist,
            send_rate_kib: cfg.send_rate_kib,
            log: Seq::empty(),
        }
    }

    /// With a line logged; the oldest lines go.
    pub open spec fn logged(self, line: Seq<char>) -> SnapshotModel {
        SnapshotModel { log: crate::lists::last_of(self.log.push(line), LOG_KEEP as nat), ..self }
    }

    /// With Steam up.
    pub open spec fn ready(self) -> SnapshotModel {
        SnapshotModel { steam_ok: true, steam_error: Seq::empty(), ..self }
    }

    /// With Steam out of reach.
    pub open spec fn failed(self, error: Seq<char>) -> SnapshotModel {
        SnapshotModel {
            steam_ok: false,
            steam_error: log::steam_unavailable_text(error),
            ..self
        }
    }

    /// With the one who is signed in.
    pub open spec fn with_me(self, name: Seq<char>, steam_id: u64) -> SnapshotModel {
        SnapshotModel {
            me: SelfModel { name, steam_id: crate::text::decimal(steam_id as nat) },
            ..self
        }
    }

    /// With a tunnel that has ended; the oldest go.
    pub open spec fn recorded(self, row: HistoryModel, keep: nat) -> SnapshotModel {
        SnapshotModel { history: crate::lists::last_of(self.history.push(row), keep), ..self }
    }
}

impl Snapshot {
    /// What is shown before anything has happened.
    pub fn default_with(cfg: &Config) -> (r: Snapshot)
        ensures
            r@ == SnapshotModel::initial(cfg@),
    {
        let r = Snapshot {
            version: APP_VERSION.to_owned(),
            steam_ok: false,
            steam_error: String::new(),
            relay_status: String::new(),
            me: SelfInfo { name: String::new(), steam_id: String::new() },
            friends: Vec::new(),
            shares: Vec::new(),
            mappings: Vec::new(),
            conns: Vec::new(),
            invites: Vec::new(),
            apps: Vec::new(),
            games: Vec::new(),
            history: Vec::new(),
            psk_set: !cfg.psk.as_str().is_empty(),
            allowlist: copy_texts(&cfg.allowlist),
            send_rate_kib: cfg.send_rate_kib,
            log: Vec::new(),
        };
        assert(r@ =~= SnapshotModel::initial(cfg@));
        r
    }

    /// Logs a line.
    pub fn push_log(&mut self, line: String)
        ensures
            final(self)@ == old(self)@.logged(line@),
    {
        let ghost before = self@.log;
        self.log.push(line);
        let ghost all = self.log@;
        assert(crate::text::texts(all) =~= before.push(line@));
        keep_last(&mut self.log, LOG_KEEP);
        assert(self@.log =~= crate::lists::last_of(before.push(line@), LOG_KEEP as nat));
    }

    /// Records a tunnel that has ended; at most `keep` are kept.
    pub fn push_history(&mut self, row: HistoryRow, keep: usize)
        ensures
            final(self)@ == old(self)@.recorded(row@, keep as nat),
    {
        let ghost before = self@.history;
        self.history.push(row);
        let ghost all = self.history@;
        assert(history_models(all) =~= before.push(row@));
        keep_last(&mut self.history, keep);
        assert(self@.history =~= crate::lists::last_of(before.push(row@), keep as nat));
    }

    /// Steam is up.
    pub fn steam_ready(&mut self)
        ensures
            final(self)@ == old(self)@.ready(),
    {
        self.steam_ok = true;
        self.steam_error = String::new();
    }

    /// Steam could not be reached.
    pub fn steam_failed(&mut self, error: &str)
        ensures
            final(self)@ == old(self)@.failed(error@),
    {
        self.steam_ok = false;
        self.steam_error = log::steam_unavailable(error);
    }

    /// Tells who is signed in.
    pub fn set_me(&mut self, name: String, steam_id: u64)
        ensures
            final(self)@ == old(self)@.with_me(name@, steam_id),
    {
        self.me = SelfInfo { name, steam_id: number(steam_id) };
    }
}

/// A command of the web page, as a value.
#[verifier::ext_equal]
pub enum CommandModel {
    Share { port: u16, udp: bool, target: Option<Seq<char>>, label: Seq<char> },
    Unshare { port: u16, udp: bool },
    Connect { peer: u64, remote_port: u16, local_port: u16, udp: bool },
    StopMapping { id: u64 },
    Invite { peer: u64, ports: Seq<PortSpec>, label: Seq<char> },
    DismissInvite { id: u64 },
    SetSettings {
        psk: Option<Seq<char>>,
        allowlist: Seq<Seq<char>>,
        send_rate_kib: u32,
        notify_events: bool,
        notify_idle_shares: bool,
    },
}

/// A command of the web page.
pub enum Command {
    Share { port: u16, udp: bool, target: Option<String>, label: String },
    Unshare { port: u16, udp: bool },
    Connect { peer: u64, remote_port: u16, local_port: u16, udp: bool },
    StopMapping { id: u64 },
    Invite { peer: u64, ports: Vec<PortSpec>, label: String },
    DismissInvite { id: u64 },
    /// No key keeps the current one, an empty one clears it.
    SetSettings {
        psk: Option<String>,
        allowlist: Vec<String>,
        send_rate_kib: u32,
        notify_events: bool,
        notify_idle_shares: bool,
    },
}

impl View for Command {
    type V = CommandModel;

    open spec fn view(&self) -> CommandModel {
        match *self {
            Command::Share { port, udp, target, label } => CommandModel::Share {
                port,
                udp,
                target: match target {
                    Some(t) => Some(t@),
                    None => None,
                },
                label: label@,
            },
            Command::Unshare { port, udp } => CommandModel::Unshare { port, udp },
            Command::Connect { peer, remote_port, local_port, udp } => CommandModel::Connect {
                peer,
                remote_port,
                local_port,
                udp,
            },
            Command::StopMapping { id } => CommandModel::StopMapping { id },
            Command::Invite { peer, ports, label } => CommandModel::Invite {
                peer,
                ports: ports@,
                label: label@,
            },
            Command::DismissInvite { id } => CommandModel::DismissInvite { id },
            Command::SetSettings {
                psk,
                allowlist,
                send_rate_kib,
                notify_events,
                notify_idle_shares,
            } => CommandModel::SetSettings {
                psk: match psk {
                    Some(p) => Some(p@),
                    None => None,
                },
                allowlist: crate::text::texts(allowlist@),
                send_rate_kib,
                notify_events,
                notify_idle_shares,
            },
        }
    }
}

pub open spec fn command_models(v: Seq<Command>) -> Seq<CommandModel> {
    v.map_values(|c: Command| c@)
}

/// What the web page and the engine share, as a value.
#[verifier::ext_equal]
pub struct SharedModel {
    pub snapshot: SnapshotModel,
    pub commands: Seq<CommandModel>,
    pub config: ConfigModel,
}

/// What the web page and the engine share.
pub struct SharedInner {
    pub snapshot: Snapshot,
    pub commands: Vec<Command>,
    pub config: Config,
}

impl View for SharedInner {
    type V = SharedModel;

    open spec fn view(&self) -> SharedModel {
        SharedModel {
            snapshot: self.snapshot@,
            commands: command_models(self.commands@),
            config: self.config@,
        }
    }
}

/// The state to start with.
pub fn new_shared(config: Config) -> (r: SharedInner)
    ensures
        r@ == (SharedModel {
            snapshot: SnapshotModel::initial(config@),
            commands: Seq::empty(),
            config: config@,
        }),
{
    let r = SharedInner {
        snapshot: Snapshot::default_with(&config),
        commands: Vec::new(),
        config,
    };
    assert(r@.commands =~= Seq::empty());
    r
}

/// New settings in a configuration: without a key the old one stays.
pub open spec fn configured(
    cfg: ConfigModel,
    psk: Option<Seq<char>>,
    allowlist: Seq<Seq<char>>,
    send_rate_kib: u32,
) -> ConfigModel {
    ConfigModel {
        psk: match psk {
            Some(k) => k,
            None => cfg.psk,
        },
        allowlist,
        send_rate_kib,
        ..cfg
    }
}

/// Whether a send rate is another than the configured one.
pub open spec fn rate_changes(cfg: ConfigModel, send_rate_kib: u32) -> bool {
    cfg.send_rate_kib != send_rate_kib
}

impl SharedModel {
    /// With a command queued.
    pub open spec fn with_command(self, cmd: CommandModel) -> SharedModel {
        SharedModel { commands: self.commands.push(cmd), ..self }
    }

    /// With no command left.
    pub open spec fn emptied(self) -> SharedModel {
        SharedModel { commands: Seq::empty(), ..self }
    }

    /// With new settings, which are shown.
    pub open spec fn with_settings(
        self,
        psk: Option<Seq<char>>,
        allowlist: Seq<Seq<char>>,
        send_rate_kib: u32,
    ) -> SharedModel {
        let cfg = configured(self.config, psk, allowlist, send_rate_kib);
        SharedModel {
            config: cfg,
            snapshot: SnapshotModel {
                psk_set: cfg.psk.len() > 0,
                allowlist: cfg.allowlist,
                send_rate_kib,
                ..self.snapshot
            },
            ..self
        }
    }
}

impl SharedInner {
    /// Queues a command for the engine.
    pub fn push_command(&mut self, cmd: Command)
        ensures
            final(self)@ == old(self)@.with_command(cmd@),
    {
        self.commands.push(cmd);
        assert(self@.commands =~= old(self)@.commands.push(cmd@));
    }

    /// Hands the queued commands to the engine.
    pub fn take_commands(&mut self) -> (r: Vec<Command>)
        ensures
            command_models(r@) == old(self)@.commands,
            final(self)@ == old(self)@.emptied(),
    {
        let mut r: Vec<Command> = Vec::new();
        core::mem::swap(&mut r, &mut self.commands);
        assert(self@.commands =~= Seq::empty());
        r
    }

    /// Takes new settings, and shows them; tells whether the send rate
    /// changed.
    pub fn set_settings(
        &mut self,
        psk: Option<String>,
        allowlist: Vec<String>,
        send_rate_kib: u32,
    ) -> (changed: bool)
        ensures
            changed == rate_changes(old(self)@.config, send_rate_kib),
            final(self)@ == old(self)@.with_settings(
                match psk {
                    Some(k) => Some(k@),
                    None => None,
                },
                crate::text::texts(allowlist@),
                send_rate_kib,
            ),
    {
        let changed = self.config.send_rate_kib != send_rate_kib;
        if let Some(k) = psk {
            self.config.psk = k;
        }
        self.snapshot.allowlist = copy_texts(&allowlist);
        self.config.allowlist = allowlist;
        self.config.send_rate_kib = send_rate_kib;
        self.snapshot.psk_set = !self.config.psk.as_str().is_empty();
        self.snapshot.send_rate_kib = send_rate_kib;
        changed
    }
}

/// The log never grows beyond its limit, keeps the order of what it keeps, and
/// ends with the line logged last.
pub proof fn law_log_bounded(s: SnapshotModel, line: Seq<char>)
    ensures
        s.logged(line).log.len() <= LOG_KEEP,
        s.logged(line).log.last() == line,
        s.log.len() < LOG_KEEP ==> s.logged(line).log == s.log.push(line),
        s.log.len() == LOG_KEEP ==> s.logged(line).log == s.log.skip(1).push(line),
{
    if s.log.len() == LOG_KEEP {
        assert(s.logged(line).log =~= s.log.skip(1).push(line));
    }
}

/// Settings without a key keep the key, and settings with an empty one clear
/// it; the port of the web page is no setting.
pub proof fn law_settings_key(cfg: ConfigModel, allowlist: Seq<Seq<char>>, rate: u32, key: Seq<char>)
    ensures
        configured(cfg, None, allowlist, rate).psk == cfg.psk,
        configured(cfg, Some(Seq::empty()), allowlist, rate).psk.len() == 0,
        configured(cfg, Some(key), allowlist, rate).psk == key,
        configured(cfg, Some(key), allowlist, rate).ui_port == cfg.ui_port,
{
}

} // verus!
