//! What the web page is shown of the engine, of friends and of local programs.
use vstd::prelude::*;
use vstd::string::*;

use crate::detect::{AppModel, AppPort};
use crate::engine::{Engine, EngineModel, Mapping, MappingModel};
use crate::state::{
    AppRow, AppRowModel, ConnModel, ConnRow, FriendModel, FriendRow, Game, GameModel, HistoryModel, HistoryRow,
    InviteRow, MappingRow, MappingRowModel, PortSpec, ShareRow, Snapshot, SnapshotModel,
};
use crate::stream::{elapsed, Dir};
use crate::text::{number, ordered, same};
use crate::tunnel::{ConnState, Tunnel, TunnelModel};

verus! {

/// The Steam app that steam-tunnel runs as.
pub const APP_ID: u32 = 480;

/// Time between looks at the health of the tunnels, in nanoseconds.
pub const HEALTH_PERIOD: u64 = 500_000_000;

/// Time between snapshots, in nanoseconds.
pub const STATS_PERIOD: u64 = 1_000_000_000;

/// Time between looks at friends and local programs, in nanoseconds.
pub const FRIENDS_PERIOD: u64 = 5_000_000_000;

/// What is shown of the relay network.
pub const RELAY_STATUS: &'static str = "relay access requested";

/// Whether more than `period` has passed since `last`.
pub open spec fn is_due(now: u64, last: u64, period: u64) -> bool {
    crate::stream::elapsed_ns(now, last) > period
}

/// Whether more than `period` has passed since `last`.
pub fn due(now: u64, last: u64, period: u64) -> (r: bool)
    ensures
        r == is_due(now, last, period),
{
    elapsed(now, last) > period
}

pub open spec fn dir_text(dir: Dir) -> Seq<char> {
    match dir {
        Dir::In => "in"@,
        Dir::Out => "out"@,
    }
}

fn dir_name(dir: Dir) -> (r: String)
    ensures
        r@ == dir_text(dir),
{
    match dir {
        Dir::In => "in".to_owned(),
        Dir::Out => "out".to_owned(),
    }
}

pub open spec fn state_text(state: ConnState) -> Seq<char> {
    if state == ConnState::Active {
        "active"@
    } else {
        "handshake"@
    }
}

/// Whole seconds between two times.
pub open spec fn secs_between(now: u64, since: u64) -> u64 {
    crate::stream::elapsed_ns(now, since) / 1_000_000_000
}

/// The row of a tunnel.
pub open spec fn conn_row_of(t: TunnelModel, peer_name: Seq<char>, now: u64) -> ConnModel {
    ConnModel {
        id: t.id,
        dir: dir_text(t.dir),
        udp: t.udp,
        peer: crate::text::decimal(t.peer as nat),
        peer_name,
        peer_version: t.peer_version,
        port: t.port,
        state: state_text(t.state),
        streams: t.streams.len() as u64,
        ping_ms: t.ping_ms,
        quality: t.quality,
        tx_bytes: t.tx_bytes,
        rx_bytes: t.rx_bytes,
        tx_rate: t.tx_rate,
        rx_rate: t.rx_rate,
        age_secs: secs_between(now, t.created),
    }
}

/// The row of a tunnel.
pub fn conn_row(t: &Tunnel, peer_name: String, now: u64) -> (r: ConnRow)
    ensures
        r@ == conn_row_of(t@, peer_name@, now),
{
    ConnRow {
        id: t.id,
        dir: dir_name(t.dir),
        udp: t.udp,
        peer: number(t.peer),
        peer_name,
        peer_version: t.peer_version.clone(),
        port: t.port,
        state: if t.state == ConnState::Active {
            "active".to_owned()
        } else {
            "handshake".to_owned()
        },
        streams: t.streams.len() as u64,
        ping_ms: t.ping_ms,
        quality: t.quality,
        tx_bytes: t.tx_bytes,
        rx_bytes: t.rx_bytes,
        tx_rate: t.tx_rate,
        rx_rate: t.rx_rate,
        age_secs: elapsed(now, t.created) / 1_000_000_000,
    }
}

/// The row of a tunnel that has ended.
pub open spec fn history_row_of(t: TunnelModel, ts: u64, peer_name: Seq<char>, now: u64) ->
    HistoryModel {
    HistoryModel {
        ts,
        dir: dir_text(t.dir),
        udp: t.udp,
        peer: crate::text::decimal(t.peer as nat),
        peer_name,
        port: t.port,
        duration_secs: secs_between(now, t.created),
        tx_bytes: t.tx_bytes,
        rx_bytes: t.rx_bytes,
        streams: t.streams_served,
        reason: match t.dead {
            Some(why) => crate::stream::reason_text(why),
            None => Seq::empty(),
        },
    }
}

/// The row of a tunnel that has ended.
pub fn history_row(t: &Tunnel, ts: u64, peer_name: String, now: u64) -> (r: HistoryRow)
    ensures
        r@ == history_row_of(t@, ts, peer_name@, now),
{
    let reason = match t.dead {
        Some(why) => why.text().to_owned(),
        None => String::new(),
    };
    HistoryRow {
        ts,
        dir: dir_name(t.dir),
        udp: t.udp,
        peer: number(t.peer),
        peer_name,
        port: t.port,
        duration_secs: elapsed(now, t.created) / 1_000_000_000,
        tx_bytes: t.tx_bytes,
        rx_bytes: t.rx_bytes,
        streams: t.streams_served,
        reason,
    }
}

/// The row of a mapping.
pub open spec fn mapping_row_of(m: MappingModel) -> MappingRowModel {
    MappingRowModel {
        id: m.id,
        peer: crate::text::decimal(m.peer as nat),
        peer_name: m.peer_name,
        remote_port: m.remote_port,
        local_port: m.local_port,
        udp: m.udp,
    }
}

fn mapping_row_list(v: &Vec<Mapping>) -> (r: Vec<MappingRow>)
    ensures
        crate::state::mapping_rows(r@) == crate::engine::mapping_models(v@).map_values(
            |m: MappingModel| mapping_row_of(m),
        ),
{
    let mut r: Vec<MappingRow> = Vec::new();
    let mut i: usize = 0;
    let ghost f = |m: MappingModel| mapping_row_of(m);
    let ghost all = crate::engine::mapping_models(v@).map_values(f);
    while i < v.len()
        invariant
            i <= v@.len(),
            f == (|m: MappingModel| mapping_row_of(m)),
            all == crate::engine::mapping_models(v@).map_values(f),
            crate::state::mapping_rows(r@) == all.take(i as int),
        decreases v@.len() - i,
    {
        let ghost had = crate::state::mapping_rows(r@);
        let m = &v[i];
        let row = MappingRow {
            id: m.id,
            peer: number(m.peer),
            peer_name: m.peer_name.clone(),
            remote_port: m.remote_port,
            local_port: m.local_port,
            udp: m.udp,
        };
        r.push(row);
        assert(row@ == mapping_row_of(m@));
        assert(crate::state::mapping_rows(r@) =~= had.push(row@));
        i = i + 1;
        assert(had.push(row@) =~= all.take(i as int));
    }
    assert(all.take(i as int) =~= all);
    r
}

fn share_row_list(v: &Vec<ShareRow>) -> (r: Vec<ShareRow>)
    ensures
        crate::state::share_rows(r@) == crate::state::share_rows(v@),
{
    let mut r: Vec<ShareRow> = Vec::new();
    let mut i: usize = 0;
    let ghost all = crate::state::share_rows(v@);
    while i < v.len()
        invariant
            i <= v@.len(),
            all == crate::state::share_rows(v@),
            crate::state::share_rows(r@) == all.take(i as int),
        decreases v@.len() - i,
    {
        let ghost had = crate::state::share_rows(r@);
        let row = ShareRow { port: v[i].port, udp: v[i].udp, target: v[i].target.clone() };
        r.push(row);
        assert(row@ == v@[i as int]@);
        assert(crate::state::share_rows(r@) =~= had.push(row@));
        i = i + 1;
        assert(had.push(row@) =~= all.take(i as int));
    }
    assert(all.take(i as int) =~= all);
    r
}

fn invite_row_list(v: &Vec<InviteRow>) -> (r: Vec<InviteRow>)
    ensures
        crate::state::invite_models(r@) == crate::state::invite_models(v@),
{
    let mut r: Vec<InviteRow> = Vec::new();
    let mut i: usize = 0;
    let ghost all = crate::state::invite_models(v@);
    while i < v.len()
        invariant
            i <= v@.len(),
            all == crate::state::invite_models(v@),
            crate::state::invite_models(r@) == all.take(i as int),
        decreases v@.len() - i,
    {
        let ghost had = crate::state::invite_models(r@);
        let row = InviteRow {
            id: v[i].id,
            from: v[i].from.clone(),
            from_name: v[i].from_name.clone(),
            port: v[i].port,
            udp: v[i].udp,
        };
        r.push(row);
        assert(row@ == v@[i as int]@);
        assert(crate::state::invite_models(r@) =~= had.push(row@));
        i = i + 1;
        assert(had.push(row@) =~= all.take(i as int));
    }
    assert(all.take(i as int) =~= all);
    r
}

/// A snapshot with the engine's shares, mappings, tunnels and invitations.
pub open spec fn published(s: SnapshotModel, e: EngineModel, conns: Seq<ConnModel>) ->
    SnapshotModel {
    SnapshotModel {
        relay_status: RELAY_STATUS@,
        invites: e.invites,
        shares: e.shares,
        mappings: e.mappings.map_values(|m: MappingModel| mapping_row_of(m)),
        conns,
        ..s
    }
}

/// Shows the engine, given the rows of its tunnels.
pub fn publish(engine: &Engine, conns: Vec<ConnRow>, snapshot: &mut Snapshot)
    ensures
        final(snapshot)@ == published(
            old(snapshot)@,
            engine@,
            crate::state::conn_models(conns@),
        ),
{
    snapshot.relay_status = RELAY_STATUS.to_owned();
    snapshot.invites = invite_row_list(&engine.invites);
    snapshot.shares = share_row_list(&engine.shares);
    snapshot.mappings = mapping_row_list(&engine.mappings);
    snapshot.conns = conns;
}

/// Whether a friend plays the app that steam-tunnel runs as.
pub open spec fn plays_this(app: Option<u32>) -> bool {
    app == Some(APP_ID)
}

/// Whether a friend plays the app that steam-tunnel runs as.
pub fn in_tunnel(app: Option<u32>) -> (r: bool)
    ensures
        r == plays_this(app),
{
    match app {
        Some(id) => id == APP_ID,
        None => false,
    }
}

/// The order of friends: those in the app first, then those online, each by
/// name.
pub open spec fn friend_le(a: FriendModel, b: FriendModel) -> bool {
    if a.in_tunnel != b.in_tunnel {
        a.in_tunnel
    } else if a.online != b.online {
        a.online
    } else {
        crate::text::text_le(a.name, b.name)
    }
}

pub open spec fn friend_order() -> spec_fn(FriendModel, FriendModel) -> bool {
    |a: FriendModel, b: FriendModel| friend_le(a, b)
}

/// The order of local programs: games first, then named programs by name and
/// port, nameless ones last.
pub open spec fn app_row_le(a: AppRowModel, b: AppRowModel) -> bool {
    if (a.game is None) != (b.game is None) {
        a.game is Some
    } else if (a.process.len() == 0) != (b.process.len() == 0) {
        a.process.len() > 0
    } else if a.process != b.process {
        crate::text::text_le(a.process, b.process)
    } else {
        a.port <= b.port
    }
}

pub open spec fn app_order() -> spec_fn(AppRowModel, AppRowModel) -> bool {
    |a: AppRowModel, b: AppRowModel| app_row_le(a, b)
}

proof fn lemma_friend_order()
    ensures
        crate::lists::is_order(friend_order()),
{
    let le = friend_order();
    assert forall|a: FriendModel, b: FriendModel| #[trigger] le(a, b) || le(b, a) by {
        crate::text::lemma_text_le_total(a.name, b.name);
    }
    assert forall|a: FriendModel, b: FriendModel, c: FriendModel| #[trigger]
        le(a, b) && #[trigger] le(b, c) implies le(a, c) by {
        if crate::text::text_le(a.name, b.name) && crate::text::text_le(b.name, c.name) {
            crate::text::lemma_text_le_transitive(a.name, b.name, c.name);
        }
    }
}

proof fn lemma_app_order()
    ensures
        crate::lists::is_order(app_order()),
{
    let le = app_order();
    assert forall|a: AppRowModel, b: AppRowModel| #[trigger] le(a, b) || le(b, a) by {
        crate::text::lemma_text_le_total(a.process, b.process);
    }
    assert forall|a: AppRowModel, b: AppRowModel, c: AppRowModel| #[trigger]
        le(a, b) && #[trigger] le(b, c) implies le(a, c) by {
        if crate::text::text_le(a.process, b.process) && crate::text::text_le(
            b.process,
            c.process,
        ) {
            crate::text::lemma_text_le_transitive(a.process, b.process, c.process);
            crate::text::lemma_text_le_total(a.process, b.process);
        }
    }
}

fn friend_ordered(a: &FriendRow, b: &FriendRow) -> (r: bool)
    ensures
        r == friend_le(a@, b@),
{
    if a.in_tunnel != b.in_tunnel {
        a.in_tunnel
    } else if a.online != b.online {
        a.online
    } else {
        ordered(a.name.as_str(), b.name.as_str())
    }
}

fn app_row_ordered(a: &AppRow, b: &AppRow) -> (r: bool)
    ensures
        r == app_row_le(a@, b@),
{
    if a.game.is_none() != b.game.is_none() {
        a.game.is_some()
    } else if a.process.as_str().is_empty() != b.process.as_str().is_empty() {
        !a.process.as_str().is_empty()
    } else if !same(a.process.as_str(), b.process.as_str()) {
        ordered(a.process.as_str(), b.process.as_str())
    } else {
        a.port <= b.port
    }
}

/// Sorts friends; those that are level stay in the order that they had.
pub fn sort_friends(rows: Vec<FriendRow>) -> (r: Vec<FriendRow>)
    ensures
        crate::lists::sorted_from(
            crate::state::friend_models(rows@),
            crate::state::friend_models(r@),
            friend_order(),
        ),
{
    let mut r: Vec<FriendRow> = Vec::new();
    let ghost le = friend_order();
    let ghost all = crate::state::friend_models(rows@);
    proof {
        lemma_friend_order();
        assert(all.take(0) =~= crate::state::friend_models(r@));
    }
    for x in it: rows
        invariant
            it.seq() == rows@,
            all == crate::state::friend_models(rows@),
            le == friend_order(),
            crate::lists::is_order(le),
            crate::lists::sorted_from(
                all.take(it.index() as int),
                crate::state::friend_models(r@),
                le,
            ),
    {
        let ghost k = it.index() as int;
        let ghost s = crate::state::friend_models(r@);
        let mut at: usize = 0;
        while at < r.len() && friend_ordered(&r[at], &x)
            invariant
                at <= r@.len(),
                s == crate::state::friend_models(r@),
                le == friend_order(),
                forall|i: int| 0 <= i < at ==> le(#[trigger] s[i], x@),
            decreases r@.len() - at,
        {
            assert(s[at as int] == r@[at as int]@);
            at = at + 1;
        }
        proof {
            assert forall|i: int| at <= i < s.len() implies !le(#[trigger] s[i], x@) by {
                assert(s[at as int] == r@[at as int]@);
                if i > at && le(s[i], x@) {
                    assert(le(s[at as int], s[i]));
                }
            }
            crate::lists::lemma_insert_sorted(all.take(k), s, at as int, x@, le);
            assert(all.take(k + 1) =~= all.take(k).push(x@));
        }
        let ghost x0 = x@;
        r.insert(at, x);
        assert(crate::state::friend_models(r@) =~= s.insert(at as int, x0));
    }
    assert(all.take(all.len() as int) =~= all);
    r
}

fn sort_apps(rows: Vec<AppRow>) -> (r: Vec<AppRow>)
    ensures
        crate::lists::sorted_from(
            crate::state::app_models(rows@),
            crate::state::app_models(r@),
            app_order(),
        ),
{
    let mut r: Vec<AppRow> = Vec::new();
    let ghost le = app_order();
    let ghost all = crate::state::app_models(rows@);
    proof {
        lemma_app_order();
        assert(all.take(0) =~= crate::state::app_models(r@));
    }
    for x in it: rows
        invariant
            it.seq() == rows@,
            all == crate::state::app_models(rows@),
            le == app_order(),
            crate::lists::is_order(le),
            crate::lists::sorted_from(
                all.take(it.index() as int),
                crate::state::app_models(r@),
                le,
            ),
    {
        let ghost k = it.index() as int;
        let ghost s = crate::state::app_models(r@);
        let mut at: usize = 0;
        while at < r.len() && app_row_ordered(&r[at], &x)
            invariant
                at <= r@.len(),
                s == crate::state::app_models(r@),
                le == app_order(),
                forall|i: int| 0 <= i < at ==> le(#[trigger] s[i], x@),
            decreases r@.len() - at,
        {
            assert(s[at as int] == r@[at as int]@);
            at = at + 1;
        }
        proof {
            assert forall|i: int| at <= i < s.len() implies !le(#[trigger] s[i], x@) by {
                assert(s[at as int] == r@[at as int]@);
                if i > at && le(s[i], x@) {
                    assert(le(s[at as int], s[i]));
                }
            }
            crate::lists::lemma_insert_sorted(all.take(k), s, at as int, x@, le);
            assert(all.take(k + 1) =~= all.take(k).push(x@));
        }
        let ghost x0 = x@;
        r.insert(at, x);
        assert(crate::state::app_models(r@) =~= s.insert(at as int, x0));
    }
    assert(all.take(all.len() as int) =~= all);
    r
}

/// Games that listen on a port.
pub open spec fn plays_on(port: u16, udp: bool) -> spec_fn(GameModel) -> bool {
    |g: GameModel| g.ports.contains(PortSpec { port, udp })
}

/// The game of a listening socket: the first that uses its port.
pub open spec fn game_on(games: Seq<GameModel>, port: u16, udp: bool) -> Option<Seq<char>> {
    match crate::lists::first_where(games, plays_on(port, udp)) {
        Some(i) => Some(games[i].name),
        None => None,
    }
}

/// The rows of listening sockets, without the web page's own port.
pub open spec fn app_rows_of(apps: Seq<AppModel>, ui_port: u16, games: Seq<GameModel>) -> Seq<
    AppRowModel,
>
    decreases apps.len(),
{
    if apps.len() == 0 {
        Seq::empty()
    } else {
        let before = app_rows_of(apps.drop_last(), ui_port, games);
        let a = apps.last();
        if a.port == ui_port {
            before
        } else {
            before.push(
                AppRowModel {
                    process: a.process,
                    port: a.port,
                    udp: a.udp,
                    game: game_on(games, a.port, a.udp),
                },
            )
        }
    }
}

fn uses(g: &Game, port: u16, udp: bool) -> (r: bool)
    ensures
        r == g@.ports.contains(PortSpec { port, udp }),
{
    let mut i: usize = 0;
    while i < g.ports.len()
        invariant
            i <= g.ports@.len(),
            forall|j: int| 0 <= j < i ==> g.ports@[j] != (PortSpec { port, udp }),
        decreases g.ports@.len() - i,
    {
        if g.ports[i].port == port && g.ports[i].udp == udp {
            assert(g.ports@[i as int] == PortSpec { port, udp });
            return true;
        }
        i = i + 1;
    }
    false
}

fn find_game(games: &Vec<Game>, port: u16, udp: bool) -> (r: Option<String>)
    ensures
        match r {
            Some(n) => game_on(crate::state::game_models(games@), port, udp) == Some(n@),
            None => game_on(crate::state::game_models(games@), port, udp) is None,
        },
{
    let ghost m = crate::state::game_models(games@);
    let ghost p = plays_on(port, udp);
    let mut i: usize = 0;
    while i < games.len()
        invariant
            i <= games@.len(),
            m == crate::state::game_models(games@),
            p == plays_on(port, udp),
            forall|j: int| 0 <= j < i ==> !p(#[trigger] m[j]),
        decreases games@.len() - i,
    {
        assert(m[i as int] == games@[i as int]@);
        if uses(&games[i], port, udp) {
            proof {
                crate::lists::lemma_first_where_is(m, p, i as int);
            }
            return Some(games[i].name.clone());
        }
        i = i + 1;
    }
    proof {
        crate::lists::lemma_first_where_is(m, p, i as int);
    }
    None
}

/// The rows of listening sockets, sorted.
pub fn app_rows(apps: Vec<AppPort>, ui_port: u16, games: &Vec<Game>) -> (r: Vec<AppRow>)
    ensures
        crate::lists::sorted_from(
            app_rows_of(
                crate::detect::app_models(apps@),
                ui_port,
                crate::state::game_models(games@),
            ),
            crate::state::app_models(r@),
            app_order(),
        ),
{
    let mut rows: Vec<AppRow> = Vec::new();
    let ghost all = crate::detect::app_models(apps@);
    let ghost g = crate::state::game_models(games@);
    assert(crate::state::app_models(rows@) =~= Seq::empty());
    for a in it: apps
        invariant
            it.seq() == apps@,
            all == crate::detect::app_models(apps@),
            g == crate::state::game_models(games@),
            crate::state::app_models(rows@) == app_rows_of(
                all.take(it.index() as int),
                ui_port,
                g,
            ),
    {
        let ghost k = it.index() as int;
        let ghost had = crate::state::app_models(rows@);
        proof {
            assert(all.take(k + 1).drop_last() =~= all.take(k));
            assert(all.take(k + 1).last() == a@);
        }
        if a.port != ui_port {
            let game = find_game(games, a.port, a.udp);
            let row = AppRow { process: a.process, port: a.port, udp: a.udp, game };
            rows.push(row);
            assert(crate::state::app_models(rows@) =~= had.push(row@));
        }
    }
    assert(all.take(all.len() as int) =~= all);
    sort_apps(rows)
}

/// A snapshot with friends and local programs.
pub open spec fn listed(s: SnapshotModel, friends: Seq<FriendModel>, apps: Seq<AppRowModel>) ->
    SnapshotModel {
    SnapshotModel { friends, apps, ..s }
}

/// Shows friends and local programs.
pub fn publish_lists(friends: Vec<FriendRow>, apps: Vec<AppRow>, snapshot: &mut Snapshot)
    ensures
        final(snapshot)@ == listed(
            old(snapshot)@,
            crate::state::friend_models(friends@),
            crate::state::app_models(apps@),
        ),
{
    snapshot.friends = friends;
    snapshot.apps = apps;
}

} // verus!
