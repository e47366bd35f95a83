//! What holds of the allowlist, of settings and of what the web page shows.
use vstd::prelude::*;

use crate::state::{CommandModel, ConfigModel, HistoryModel, SharedModel, SnapshotModel};

verus! {

/// Whether a line of the allowlist stands for an id: white space, then the
/// digits of the id, then anything that does not go on with a digit.
pub open spec fn stands_for(line: Seq<char>, id: u64) -> bool {
    exists|a: Seq<char>, d: Seq<char>, rest: Seq<char>| #[trigger] is_entry(line, id, a, d, rest)
}

pub open spec fn is_entry(
    line: Seq<char>,
    id: u64,
    a: Seq<char>,
    d: Seq<char>,
    rest: Seq<char>,
) -> bool {
    &&& line == a + d + rest
    &&& crate::text_laws::is_blank(a)
    &&& d.len() > 0
    &&& crate::text::all_digits(d, 10)
    &&& crate::text::numeral_value(d, 10) == id
    &&& rest.len() > 0 ==> !crate::text::is_digit(rest[0], 10)
}

proof fn lemma_leading(s: Seq<char>)
    ensures
        ({
            let d = crate::state::leading_digits(s);
            &&& d.len() <= s.len()
            &&& s.take(d.len() as int) == d
            &&& crate::text::all_digits(d, 10)
            &&& d.len() < s.len() ==> !crate::text::is_digit(s[d.len() as int], 10)
        }),
    decreases s.len(),
{
    let d = crate::state::leading_digits(s);
    if s.len() > 0 && crate::text::is_digit(s[0], 10) {
        let rest = s.drop_first();
        lemma_leading(rest);
        let e = crate::state::leading_digits(rest);
        assert(d == seq![s[0]] + e);
        assert forall|i: int| 0 <= i < d.len() implies #[trigger] d[i] == s[i] by {
            if i > 0 {
                assert(d[i] == e[i - 1]);
                assert(e[i - 1] == rest.take(e.len() as int)[i - 1]);
            }
        }
        assert(s.take(d.len() as int) =~= d);
        assert forall|i: int| 0 <= i < d.len() implies crate::text::is_digit(#[trigger] d[i], 10) by {
            if i > 0 {
                assert(d[i] == e[i - 1]);
            }
        }
        if d.len() < s.len() {
            assert(s[d.len() as int] == rest[e.len() as int]);
        }
    } else {
        assert(s.take(0) =~= d);
    }
}

/// What a line stands for is what its numeral writes.
proof fn lemma_stands(line: Seq<char>, id: u64)
    ensures
        stands_for(line, id) <==> crate::state::id_of_line(line) == Some(id as int),
{
    let t = crate::text::trimmed(line);
    let (a, b) = crate::text_laws::law_trimmed_parts(line);
    lemma_leading(t);
    let d = crate::state::leading_digits(t);
    let rest = t.skip(d.len() as int) + b;
    assert(line =~= a + d + rest) by {
        assert(t =~= d + t.skip(d.len() as int));
    }
    if d.len() > 0 {
        assert(crate::text::is_digit(d[0], 10));
    }
    crate::text_laws::law_trimmed_bare(line);
    if t.len() == 0 {
        assert(line =~= a + b);
        assert forall|i: int| 0 <= i < line.len() implies crate::text::is_white(
            #[trigger] line[i],
        ) by {
            if i < a.len() {
                assert(line[i] == a[i]);
            } else {
                assert(line[i] == b[i - a.len()]);
            }
        }
    }
    if rest.len() > 0 {
        if d.len() < t.len() {
            assert(rest[0] == t[d.len() as int]);
        } else {
            assert(rest[0] == b[0]);
            assert(crate::text::is_white(b[0]));
        }
    }
    if crate::state::id_of_line(line) == Some(id as int) {
        assert(is_entry(line, id, a, d, rest));
    }
    if stands_for(line, id) {
        let (x, e, r) = choose|x: Seq<char>, e: Seq<char>, r: Seq<char>| #[trigger]
            is_entry(line, id, x, e, r);
        assert(crate::text::is_digit(e[0], 10));
        lemma_entry_start(line, x, e, r, a, d, rest);
    }
}

/// The digits of an entry are found in only one way.
proof fn lemma_entry_start(
    line: Seq<char>,
    x: Seq<char>,
    e: Seq<char>,
    r: Seq<char>,
    a: Seq<char>,
    d: Seq<char>,
    rest: Seq<char>,
)
    requires
        line == x + e + r,
        line == a + d + rest,
        crate::text_laws::is_blank(x),
        crate::text_laws::is_blank(a),
        e.len() > 0,
        crate::text::all_digits(e, 10),
        crate::text::all_digits(d, 10),
        r.len() > 0 ==> !crate::text::is_digit(r[0], 10),
        rest.len() > 0 ==> !crate::text::is_digit(rest[0], 10),
        d.len() == 0 ==> a.len() + rest.len() == line.len() && (rest.len() > 0
            ==> !crate::text::is_white(rest[0])) || crate::text_laws::is_blank(line),
    ensures
        d == e,
{
    assert(crate::text::is_digit(e[0], 10));
    assert(line[x.len() as int] == e[0]);
    if d.len() == 0 {
        if crate::text_laws::is_blank(line) {
            assert(crate::text::is_white(line[x.len() as int]));
        } else if x.len() < a.len() {
            assert(line[x.len() as int] == a[x.len() as int]);
        } else if a.len() < x.len() {
            assert(line[a.len() as int] == x[a.len() as int]);
            assert(line[a.len() as int] == rest[0]);
        } else {
            assert(rest[0] == line[a.len() as int]);
        }
    } else {
        assert(crate::text::is_digit(d[0], 10));
        assert(line[a.len() as int] == d[0]);
        if x.len() < a.len() {
            assert(line[x.len() as int] == a[x.len() as int]);
        }
        if a.len() < x.len() {
            assert(line[a.len() as int] == x[a.len() as int]);
        }
        assert(x.len() == a.len());
        if e.len() < d.len() {
            assert(line[(x.len() + e.len()) as int] == r[0]);
            assert(line[(a.len() + e.len()) as int] == d[e.len() as int]);
        }
        if d.len() < e.len() {
            assert(line[(a.len() + d.len()) as int] == rest[0]);
            assert(line[(a.len() + d.len()) as int] == e[d.len() as int]);
        }
        assert forall|i: int| 0 <= i < d.len() implies #[trigger] d[i] == e[i] by {
            assert(line[a.len() + i] == d[i]);
            assert(line[x.len() + i] == e[i]);
        }
        assert(d =~= e);
    }
}

/// The ids of an allowlist are those of its parts, in the order of the lines,
/// one for each line that stands for one; other lines do not matter.
pub proof fn law_allowlist_order(a: Seq<Seq<char>>, b: Seq<Seq<char>>, line: Seq<char>, id: u64)
    ensures
        crate::state::ids_of(a + b) == crate::state::ids_of(a) + crate::state::ids_of(b),
        stands_for(line, id) ==> crate::state::ids_of(seq![line]) == seq![id],
        (forall|n: u64| !#[trigger] stands_for(line, n)) ==> crate::state::ids_of(seq![line]).len()
            == 0,
{
    lemma_ids_add(a, b);
    lemma_stands(line, id);
    let none = Seq::<Seq<char>>::empty();
    assert(seq![line].drop_last() =~= none);
    assert(seq![line].last() == line);
    assert(crate::state::ids_of(none) =~= Seq::<u64>::empty());
    if stands_for(line, id) {
        assert(crate::state::ids_of(seq![line]) =~= seq![id]);
    }
    if let Some(n) = crate::state::id_of_line(line) {
        crate::text::lemma_parsed_in_range(
            crate::state::leading_digits(crate::text::trimmed(line)),
            10,
            u64::MAX as int,
        );
        lemma_stands(line, n as u64);
    }
}

proof fn lemma_ids_add(a: Seq<Seq<char>>, b: Seq<Seq<char>>)
    ensures
        crate::state::ids_of(a + b) == crate::state::ids_of(a) + crate::state::ids_of(b),
    decreases b.len(),
{
    let all = crate::state::ids_of(a) + crate::state::ids_of(b);
    if b.len() == 0 {
        assert(a + b =~= a);
        assert(all =~= crate::state::ids_of(a));
    } else {
        lemma_ids_add(a, b.drop_last());
        assert((a + b).drop_last() =~= a + b.drop_last());
        assert((a + b).last() == b.last());
        assert(crate::state::ids_of(a + b) =~= all);
    }
}

/// An id is on the allowlist if and only if some line stands for it, wherever
/// that line is.
pub proof fn law_allowlist_ids(lines: Seq<Seq<char>>, id: u64)
    ensures
        crate::state::ids_of(lines).contains(id) <==> exists|i: int|
            0 <= i < lines.len() && stands_for(#[trigger] lines[i], id),
    decreases lines.len(),
{
    let all = crate::state::ids_of(lines);
    if lines.len() > 0 {
        let init = lines.drop_last();
        let k = lines.len() - 1;
        law_allowlist_ids(init, id);
        law_allowlist_order(init, seq![lines[k]], lines[k], id);
        assert(init + seq![lines[k]] =~= lines);
        let before = crate::state::ids_of(init);
        let own = crate::state::ids_of(seq![lines[k]]);
        assert(all == before + own);
        if exists|i: int| 0 <= i < lines.len() && stands_for(#[trigger] lines[i], id) {
            let i = choose|i: int| 0 <= i < lines.len() && stands_for(#[trigger] lines[i], id);
            if i < k {
                assert(init[i] == lines[i]);
                assert(before.contains(id));
                let j = choose|j: int| 0 <= j < before.len() && before[j] == id;
                assert(all[j] == id);
            } else {
                assert(own[0] == id);
                assert(all[before.len() as int] == id);
            }
        }
        if all.contains(id) {
            let j = choose|j: int| 0 <= j < all.len() && all[j] == id;
            if j < before.len() {
                assert(before[j] == id);
                assert(before.contains(id));
                let i = choose|i: int| 0 <= i < init.len() && stands_for(#[trigger] init[i], id);
                assert(lines[i] == init[i]);
            } else {
                assert(own.len() > 0);
                if !stands_for(lines[k], id) {
                    let n = own[0];
                    assert(stands_for(lines[k], n)) by {
                        lemma_only_id(lines[k], n);
                    }
                    law_allowlist_order(init, seq![lines[k]], lines[k], n);
                    assert(own == seq![n]);
                    assert(own[j - before.len()] == id);
                }
            }
        }
    }
}

proof fn lemma_only_id(line: Seq<char>, n: u64)
    requires
        crate::state::ids_of(seq![line]).len() > 0,
        crate::state::ids_of(seq![line])[0] == n,
    ensures
        stands_for(line, n),
{
    let none = Seq::<Seq<char>>::empty();
    assert(seq![line].drop_last() =~= none);
    assert(seq![line].last() == line);
    assert(crate::state::ids_of(none) =~= Seq::<u64>::empty());
    crate::text::lemma_parsed_in_range(
        crate::state::leading_digits(crate::text::trimmed(line)),
        10,
        u64::MAX as int,
    );
    lemma_stands(line, n);
}

/// Who may connect, in terms of the lines of the allowlist: if any stands for
/// an id, exactly those that some line stands for, friends or not; if none
/// does, exactly the friends.
pub proof fn law_who_may_connect(lines: Seq<Seq<char>>, friends: Seq<u64>, sid: u64)
    ensures
        (exists|i: int, id: u64|
            0 <= i < lines.len() && #[trigger] stands_for(lines[i], id)) ==> (
        crate::engine::allowed(sid, crate::state::ids_of(lines), friends) <==> exists|i: int|
            0 <= i < lines.len() && stands_for(#[trigger] lines[i], sid)),
        (forall|i: int, id: u64|
            0 <= i < lines.len() ==> !#[trigger] stands_for(lines[i], id)) ==> (
        crate::engine::allowed(sid, crate::state::ids_of(lines), friends) <==> friends.contains(
            sid,
        )),
{
    let all = crate::state::ids_of(lines);
    law_allowlist_ids(lines, sid);
    if exists|i: int, id: u64| 0 <= i < lines.len() && #[trigger] stands_for(lines[i], id) {
        let (i, id) = choose|i: int, id: u64|
            0 <= i < lines.len() && #[trigger] stands_for(lines[i], id);
        law_allowlist_ids(lines, id);
        assert(all.contains(id));
        assert(all.len() > 0);
    } else {
        if all.len() > 0 {
            law_allowlist_ids(lines, all[0]);
            assert(all.contains(all[0]));
        }
    }
}

/// What is shown at the start: the version, whether a key is set, the
/// allowlist and the send rate of the configuration, and nothing else yet. The
/// key itself is not shown: what is shown depends on it only by whether it is
/// set.
pub proof fn law_first_snapshot(cfg: ConfigModel, other: ConfigModel)
    ensures
        ({
            let s = SnapshotModel::initial(cfg);
            &&& s.version == "0.1.0"@
            &&& s.psk_set <==> cfg.psk.len() > 0
            &&& s.allowlist == cfg.allowlist
            &&& s.send_rate_kib == cfg.send_rate_kib
            &&& !s.steam_ok
            &&& s.steam_error.len() == 0 && s.log.len() == 0 && s.history.len() == 0
            &&& s.friends.len() == 0 && s.shares.len() == 0 && s.mappings.len() == 0
            &&& s.conns.len() == 0 && s.invites.len() == 0 && s.apps.len() == 0
        }),
        cfg.allowlist == other.allowlist && cfg.send_rate_kib == other.send_rate_kib && (
        cfg.psk.len() > 0 <==> other.psk.len() > 0) ==> SnapshotModel::initial(cfg)
            == SnapshotModel::initial(other),
{
}

/// What is shown of Steam: that it is up, and then no error, or that it is not,
/// and then why; and who is signed in. The rest of what is shown stays.
pub proof fn law_steam_shown(s: SnapshotModel, error: Seq<char>, name: Seq<char>, id: u64)
    ensures
        s.ready().steam_ok,
        s.ready().steam_error.len() == 0,
        s.ready() == (SnapshotModel { steam_ok: true, steam_error: s.ready().steam_error, ..s }),
        !s.failed(error).steam_ok,
        s.failed(error).steam_error == "Steam init failed: "@ + error
            + ". Is the Steam client running and signed in?"@,
        s.failed(error) == (SnapshotModel {
            steam_ok: false,
            steam_error: s.failed(error).steam_error,
            ..s
        }),
        s.with_me(name, id).me.name == name,
        s.with_me(name, id).me.steam_id == crate::text::decimal(id as nat),
        s.with_me(name, id) == (SnapshotModel { me: s.with_me(name, id).me, ..s }),
{
}

/// New settings take effect and are shown: the allowlist and the send rate as
/// given, and whether a key is set. No command is lost, the port of the web
/// page stays, and so does everything else that is shown.
pub proof fn law_settings_shown(
    s: SharedModel,
    psk: Option<Seq<char>>,
    allowlist: Seq<Seq<char>>,
    rate: u32,
)
    ensures
        ({
            let r = s.with_settings(psk, allowlist, rate);
            &&& r.config.allowlist == allowlist
            &&& r.config.send_rate_kib == rate
            &&& r.config.ui_port == s.config.ui_port
            &&& psk matches Some(k) ==> r.config.psk == k
            &&& psk is None ==> r.config.psk == s.config.psk
            &&& r.commands == s.commands
            &&& r.snapshot.psk_set <==> r.config.psk.len() > 0
            &&& r.snapshot == SnapshotModel {
                psk_set: r.snapshot.psk_set,
                allowlist,
                send_rate_kib: rate,
                ..s.snapshot
            }
        }),
{
}

/// Commands are handed to the engine in the order in which they were given,
/// each once.
pub proof fn law_commands_in_order(s: SharedModel, a: CommandModel, b: CommandModel)
    ensures
        s.emptied().with_command(a).with_command(b).commands == seq![a, b],
        s.with_command(a).commands.drop_last() == s.commands,
        s.with_command(a).commands.last() == a,
        s.emptied().commands.len() == 0,
        s.with_command(a).config == s.config && s.with_command(a).snapshot == s.snapshot,
        s.emptied().config == s.config && s.emptied().snapshot == s.snapshot,
{
    assert(s.emptied().with_command(a).with_command(b).commands =~= seq![a, b]);
    assert(s.with_command(a).commands.drop_last() =~= s.commands);
}

/// The log and the history keep what came last, in order, as much as they may:
/// 200 lines of the log, and as many tunnels as are asked for. Nothing else
/// that is shown changes.
pub proof fn law_last_kept(s: SnapshotModel, line: Seq<char>, row: HistoryModel, keep: nat)
    ensures
        s.logged(line) == (SnapshotModel { log: s.logged(line).log, ..s }),
        s.log.len() < 200 ==> s.logged(line).log == s.log.push(line),
        s.log.len() >= 200 ==> s.logged(line).log.len() == 200 && s.log.push(line).skip(
            s.log.len() - 199,
        ) == s.logged(line).log,
        s.recorded(row, keep) == (SnapshotModel { history: s.recorded(row, keep).history, ..s }),
        s.history.len() < keep ==> s.recorded(row, keep).history == s.history.push(row),
        s.history.len() >= keep ==> s.recorded(row, keep).history.len() == keep && s.history.push(
            row,
        ).skip(s.history.len() + 1 - keep) == s.recorded(row, keep).history,
{
}


/// Without a configuration the page is on port 7788, no key is set, the send
/// rate is that of Steam, and whoever is a friend may connect and nobody else.
pub proof fn law_plain_config(friends: Seq<u64>, sid: u64)
    ensures
        ConfigModel::plain().ui_port == 7788,
        ConfigModel::plain().psk.len() == 0,
        crate::protocol::rates_of(ConfigModel::plain().send_rate_kib) is None,
        crate::engine::allowed(
            sid,
            crate::state::ids_of(ConfigModel::plain().allowlist),
            friends,
        ) <==> friends.contains(sid),
{
}

/// Taking settings tells of a change of the send rate if and only if there is
/// one, so taking the same settings again tells of none.
pub proof fn law_rate_change(
    s: SharedModel,
    psk: Option<Seq<char>>,
    allowlist: Seq<Seq<char>>,
    rate: u32,
    other: u32,
)
    ensures
        ({
            let r = s.with_settings(psk, allowlist, rate);
            crate::state::rate_changes(r.config, other) <==> other != rate
        }),
{
}

} // verus!
