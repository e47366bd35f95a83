//! What the web page shows, in terms of what it is about.
use vstd::prelude::*;

use crate::detect::AppModel;
use crate::engine::EngineModel;
use crate::state::{
    AppRowModel, ConnModel, FriendModel, GameModel, PortSpec, SnapshotModel,
};
use crate::stream::{CloseReason, Dir};
use crate::tunnel::{ConnState, TunnelModel};

verus! {

/// The row of a connection shows what is sent as sent and what is received as
/// received: the rates that were set last, and the bytes that were counted.
/// Setting the rates starts their count anew and touches nothing else.
pub proof fn law_rates_shown(t: TunnelModel, tx: u64, rx: u64, name: Seq<char>, now: u64)
    ensures
        ({
            let row = crate::report::conn_row_of(t.with_rates(tx, rx), name, now);
            &&& row.tx_rate == tx
            &&& row.rx_rate == rx
            &&& row.tx_bytes == t.tx_bytes
            &&& row.rx_bytes == t.rx_bytes
        }),
        t.with_rates(tx, rx).traffic() == (0u64, 0u64),
        t.with_rates(tx, rx) == (TunnelModel {
            tx_rate: tx,
            rx_rate: rx,
            last_tx: t.tx_bytes,
            last_rx: t.rx_bytes,
            ..t
        }),
{
}

/// What a tunnel carries after its rates were set is what they are next
/// computed from: the bytes sent, and the bytes received.
pub proof fn law_traffic_counted(t: TunnelModel, u: TunnelModel, tx: u64, rx: u64, sent: u64, got: u64)
    requires
        u.last_tx == t.with_rates(tx, rx).last_tx,
        u.last_rx == t.with_rates(tx, rx).last_rx,
        u.tx_bytes == t.tx_bytes.wrapping_add(sent),
        u.rx_bytes == t.rx_bytes.wrapping_add(got),
    ensures
        u.traffic() == (sent, got),
{
}

/// The row of a connection tells of that connection: its id, its peer, its
/// port and protocol, in which direction it was opened, whether its handshake
/// is done, how many streams it has, and what was measured of it.
pub proof fn law_conn_row(t: TunnelModel, name: Seq<char>, now: u64)
    requires
        t.streams.len() <= u64::MAX,
    ensures
        ({
            let row = crate::report::conn_row_of(t, name, now);
            &&& row.id == t.id
            &&& row.peer == crate::text::decimal(t.peer as nat)
            &&& row.peer_name == name
            &&& row.peer_version == t.peer_version
            &&& row.port == t.port
            &&& row.udp == t.udp
            &&& row.streams == t.streams.len()
            &&& row.ping_ms == t.ping_ms
            &&& row.quality == t.quality
            &&& row.dir == "in"@ <==> t.dir == Dir::In
            &&& row.dir == "out"@ <==> t.dir == Dir::Out
            &&& row.state == "active"@ <==> t.state == ConnState::Active
            &&& row.state == "handshake"@ <==> t.state != ConnState::Active
        }),
{
    reveal_strlit("in");
    reveal_strlit("out");
    reveal_strlit("active");
    reveal_strlit("handshake");
    assert("in"@.len() == 2 && "out"@.len() == 3);
    assert("active"@.len() == 6 && "handshake"@.len() == 9);
}

/// Ages and durations are whole seconds since a tunnel was created, rounded
/// down.
pub proof fn law_ages(t: TunnelModel, name: Seq<char>, ts: u64, age: nat)
    requires
        t.created + age <= u64::MAX,
    ensures
        ({
            let now = (t.created + age) as u64;
            let a = crate::report::conn_row_of(t, name, now).age_secs;
            let d = crate::report::history_row_of(t, ts, name, now).duration_secs;
            a == d && a * 1_000_000_000 <= age < (a + 1) * 1_000_000_000
        }),
        crate::report::conn_row_of(t, name, 0).age_secs == 0,
{
}

/// The row of a tunnel that has ended tells of that tunnel: when it ended, how
/// much it carried each way, how many streams it served and why it ended.
pub proof fn law_history_row(t: TunnelModel, ts: u64, name: Seq<char>, now: u64)
    ensures
        ({
            let row = crate::report::history_row_of(t, ts, name, now);
            &&& row.ts == ts
            &&& row.peer == crate::text::decimal(t.peer as nat)
            &&& row.peer_name == name
            &&& row.port == t.port
            &&& row.udp == t.udp
            &&& row.tx_bytes == t.tx_bytes
            &&& row.rx_bytes == t.rx_bytes
            &&& row.streams == t.streams_served
            &&& row.dir == "in"@ <==> t.dir == Dir::In
            &&& row.dir == "out"@ <==> t.dir == Dir::Out
            &&& t.dead == Some(CloseReason::Idle) ==> row.reason == "idle"@
            &&& t.dead == Some(CloseReason::ClosedByPeer) ==> row.reason == "closed by peer"@
            &&& t.dead == Some(CloseReason::AuthFailed) ==> row.reason == "auth failed"@
            &&& t.dead == Some(CloseReason::ShareRemoved) ==> row.reason == "share removed"@
            &&& t.dead == Some(CloseReason::PeerDisconnected) ==> row.reason
                == "peer disconnected"@
            &&& t.dead == Some(CloseReason::HandshakeTimeout) ==> row.reason
                == "handshake timeout"@
            &&& t.dead == Some(CloseReason::ProtocolMismatch) ==> row.reason
                == "protocol mismatch"@
            &&& t.dead is None ==> row.reason.len() == 0
        }),
{
    reveal_strlit("in");
    reveal_strlit("out");
    assert("in"@.len() == 2 && "out"@.len() == 3);
}

/// The page shows the engine: every share, every invitation and every mapping,
/// in order, a mapping with its peer and both its ports; and the connections
/// that it is given. What it shows of the rest stays.
pub proof fn law_engine_shown(s: SnapshotModel, e: EngineModel, conns: Seq<ConnModel>, i: int)
    ensures
        ({
            let r = crate::report::published(s, e, conns);
            &&& r.shares == e.shares
            &&& r.invites == e.invites
            &&& r.conns == conns
            &&& r.mappings.len() == e.mappings.len()
            &&& r.relay_status == "relay access requested"@
            &&& r == SnapshotModel {
                shares: e.shares,
                invites: e.invites,
                conns,
                mappings: r.mappings,
                relay_status: r.relay_status,
                ..s
            }
            &&& 0 <= i < e.mappings.len() ==> {
                let m = e.mappings[i];
                let row = r.mappings[i];
                &&& row.id == m.id
                &&& row.peer == crate::text::decimal(m.peer as nat)
                &&& row.peer_name == m.peer_name
                &&& row.remote_port == m.remote_port
                &&& row.local_port == m.local_port
                &&& row.udp == m.udp
            }
        }),
{
}

/// The page shows the friends and the local programs that it is given, and
/// what it shows of the rest stays.
pub proof fn law_lists_shown(s: SnapshotModel, friends: Seq<FriendModel>, apps: Seq<AppRowModel>)
    ensures
        ({
            let r = crate::report::listed(s, friends, apps);
            r.friends == friends && r.apps == apps && r == SnapshotModel { friends, apps, ..s }
        }),
{
}

/// Sorting neither loses nor adds anything.
proof fn lemma_kept_count<A>(s: Seq<A>, p: spec_fn(A) -> bool, x: A)
    requires
        p(x),
    ensures
        crate::lists::kept(s, p).to_multiset().count(x) == s.to_multiset().count(x),
    decreases s.len(),
{
    broadcast use vstd::seq_lib::group_to_multiset_ensures;

    if s.len() > 0 {
        let init = s.drop_last();
        lemma_kept_count(init, p, x);
        let k = crate::lists::kept(init, p);
        assert(s =~= init.push(s.last()));
        if p(s.last()) {
            assert(crate::lists::kept(s, p) == k.push(s.last()));
        }
    } else {
        assert(crate::lists::kept(s, p) =~= s);
    }
}

proof fn lemma_same_rows<A>(a: Seq<A>, b: Seq<A>, le: spec_fn(A, A) -> bool)
    requires
        crate::lists::sorted_from(a, b, le),
        forall|x: A| #[trigger] le(x, x),
    ensures
        a.to_multiset() == b.to_multiset(),
{
    assert forall|x: A| a.to_multiset().count(x) == b.to_multiset().count(x) by {
        let p = crate::lists::level_with(x, le);
        assert(le(x, x));
        lemma_kept_count(a, p, x);
        lemma_kept_count(b, p, x);
        assert(crate::lists::kept(b, p) == crate::lists::kept(a, p));
    }
    assert(a.to_multiset() =~= b.to_multiset());
}

/// Friends are listed each once as often as they are given: those in the app
/// before the others, then those online before the others, then by name.
pub proof fn law_friends_sorted(a: Seq<FriendModel>, b: Seq<FriendModel>, i: int, j: int)
    requires
        crate::lists::sorted_from(a, b, crate::report::friend_order()),
        0 <= i < j < b.len(),
    ensures
        a.to_multiset() == b.to_multiset(),
        b[j].in_tunnel ==> b[i].in_tunnel,
        b[i].in_tunnel == b[j].in_tunnel && b[j].online ==> b[i].online,
        b[i].in_tunnel == b[j].in_tunnel && b[i].online == b[j].online ==> crate::text::text_le(
            b[i].name,
            b[j].name,
        ),
{
    let le = crate::report::friend_order();
    assert forall|x: FriendModel| #[trigger] le(x, x) by {
        crate::text::lemma_text_le_total(x.name, x.name);
    }
    lemma_same_rows(a, b, le);
    assert(le(b[i], b[j]));
}

/// Friends who are alike in what they are sorted by stay in the order that they
/// had.
pub proof fn law_friends_stable(a: Seq<FriendModel>, b: Seq<FriendModel>, x: FriendModel)
    requires
        crate::lists::sorted_from(a, b, crate::report::friend_order()),
    ensures
        ({
            let alike = |f: FriendModel|
                f.in_tunnel == x.in_tunnel && f.online == x.online && f.name == x.name;
            crate::lists::kept(b, alike) == crate::lists::kept(a, alike)
        }),
{
    let le = crate::report::friend_order();
    let alike = |f: FriendModel|
        f.in_tunnel == x.in_tunnel && f.online == x.online && f.name == x.name;
    let p = crate::lists::level_with(x, le);
    assert forall|f: FriendModel| #[trigger] p(f) == alike(f) by {
        crate::text::lemma_text_le_total(x.name, f.name);
    }
    assert(p =~= alike);
    assert(crate::lists::kept(b, p) == crate::lists::kept(a, p));
}

/// Local programs are listed each once as often as they are given: games before
/// the others, then named before nameless, then by name and port.
pub proof fn law_apps_sorted(a: Seq<AppRowModel>, b: Seq<AppRowModel>, i: int, j: int)
    requires
        crate::lists::sorted_from(a, b, crate::report::app_order()),
        0 <= i < j < b.len(),
    ensures
        a.to_multiset() == b.to_multiset(),
        b[j].game is Some ==> b[i].game is Some,
        (b[i].game is Some <==> b[j].game is Some) && b[j].process.len() > 0
            ==> b[i].process.len() > 0 && crate::text::text_le(b[i].process, b[j].process),
        (b[i].game is Some <==> b[j].game is Some) && b[i].process == b[j].process ==> b[i].port
            <= b[j].port,
{
    let le = crate::report::app_order();
    assert forall|x: AppRowModel| #[trigger] le(x, x) by {
    }
    lemma_same_rows(a, b, le);
    assert(le(b[i], b[j]));
    crate::text::lemma_text_le_total(b[i].process, b[j].process);
}

/// The rows of local programs are those of the parts of a list, in order. A
/// program keeps its name, port and protocol; one on the port of the web page
/// is left out.
pub proof fn law_app_rows(
    x: Seq<AppModel>,
    y: Seq<AppModel>,
    a: AppModel,
    ui_port: u16,
    games: Seq<GameModel>,
)
    ensures
        crate::report::app_rows_of(x + y, ui_port, games) == crate::report::app_rows_of(
            x,
            ui_port,
            games,
        ) + crate::report::app_rows_of(y, ui_port, games),
        a.port == ui_port ==> crate::report::app_rows_of(seq![a], ui_port, games).len() == 0,
        a.port != ui_port ==> {
            let rows = crate::report::app_rows_of(seq![a], ui_port, games);
            &&& rows.len() == 1
            &&& rows[0].process == a.process
            &&& rows[0].port == a.port
            &&& rows[0].udp == a.udp
        },
{
    lemma_app_rows_add(x, y, ui_port, games);
    lemma_app_row(a, ui_port, games);
}

proof fn lemma_app_row(a: AppModel, ui_port: u16, games: Seq<GameModel>)
    ensures
        crate::report::app_rows_of(seq![a], ui_port, games) == if a.port == ui_port {
            Seq::empty()
        } else {
            seq![
                AppRowModel {
                    process: a.process,
                    port: a.port,
                    udp: a.udp,
                    game: crate::report::game_on(games, a.port, a.udp),
                },
            ]
        },
{
    let none = Seq::<AppModel>::empty();
    assert(seq![a].drop_last() =~= none);
    assert(seq![a].last() == a);
    let before = crate::report::app_rows_of(none, ui_port, games);
    assert(before =~= Seq::<AppRowModel>::empty());
    let row = AppRowModel {
        process: a.process,
        port: a.port,
        udp: a.udp,
        game: crate::report::game_on(games, a.port, a.udp),
    };
    assert(before.push(row) =~= seq![row]);
}

proof fn lemma_app_rows_add(
    x: Seq<AppModel>,
    y: Seq<AppModel>,
    ui_port: u16,
    games: Seq<GameModel>,
)
    ensures
        crate::report::app_rows_of(x + y, ui_port, games) == crate::report::app_rows_of(
            x,
            ui_port,
            games,
        ) + crate::report::app_rows_of(y, ui_port, games),
    decreases y.len(),
{
    let all = crate::report::app_rows_of(x, ui_port, games) + crate::report::app_rows_of(
        y,
        ui_port,
        games,
    );
    if y.len() == 0 {
        assert(x + y =~= x);
        assert(all =~= crate::report::app_rows_of(x, ui_port, games));
    } else {
        lemma_app_rows_add(x, y.drop_last(), ui_port, games);
        assert((x + y).drop_last() =~= x + y.drop_last());
        assert((x + y).last() == y.last());
        assert(crate::report::app_rows_of(x + y, ui_port, games) =~= all);
    }
}

/// A program is shown as a game if and only if some game uses its port with
/// its protocol, and then under the name of the first that does.
pub proof fn law_game_named(a: AppModel, ui_port: u16, games: Seq<GameModel>, k: int)
    requires
        a.port != ui_port,
        0 <= k <= games.len(),
        forall|i: int|
            0 <= i < k ==> !(#[trigger] games[i]).ports.contains(
                PortSpec { port: a.port, udp: a.udp },
            ),
        k < games.len() ==> games[k].ports.contains(PortSpec { port: a.port, udp: a.udp }),
    ensures
        crate::report::app_rows_of(seq![a], ui_port, games).len() == 1,
        k < games.len() ==> crate::report::app_rows_of(seq![a], ui_port, games)[0].game == Some(
            games[k].name,
        ),
        k == games.len() ==> crate::report::app_rows_of(seq![a], ui_port, games)[0].game is None,
{
    lemma_app_row(a, ui_port, games);
    crate::lists::lemma_first_where_is(games, crate::report::plays_on(a.port, a.udp), k);
}

/// Something is due again when more than its period has passed, and a friend is
/// marked if and only if they play app 480.
pub proof fn law_due(last: u64, wait: u64, period: u64, app: u32)
    requires
        last + wait <= u64::MAX,
    ensures
        crate::report::is_due((last + wait) as u64, last, period) <==> wait > period,
        crate::report::plays_this(Some(app)) <==> app == 480,
        !crate::report::plays_this(None),
{
}

/// The time between two moments is what was waited, and a moment that is yet
/// to come is no time ago.
pub proof fn law_elapsed(since: u64, wait: u64)
    requires
        since + wait <= u64::MAX,
    ensures
        crate::stream::elapsed_ns((since + wait) as u64, since) == wait,
        wait > 0 ==> crate::stream::elapsed_ns(since, (since + wait) as u64) == 0,
{
}

} // verus!
