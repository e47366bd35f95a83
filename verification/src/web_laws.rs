//! What a request to the web interface comes to, in terms of what it says.
use vstd::prelude::*;

use crate::http::{Method, ReplyModel, RequestModel};
use crate::json::JsonModel;
use crate::state::{CommandModel, ConfigModel, PortSpec};

verus! {

/// Whether an object says `x` under `key`: its first field of that name does.
pub open spec fn says(v: JsonModel, key: Seq<char>, x: JsonModel) -> bool {
    v matches JsonModel::Object(fields) && exists|i: int|
        0 <= i < fields.len() && #[trigger] fields[i] == (key, x) && forall|j: int|
            0 <= j < i ==> (#[trigger] fields[j]).0 != key
}

/// Whether an object says nothing under `key`.
pub open spec fn is_silent(v: JsonModel, key: Seq<char>) -> bool {
    v matches JsonModel::Object(fields) ==> forall|i: int|
        0 <= i < fields.len() ==> (#[trigger] fields[i]).0 != key
}

/// Whether an object says the number `n` under `key`, as a number or as text,
/// which may have white space around it.
pub open spec fn says_number(v: JsonModel, key: Seq<char>, n: u64) -> bool {
    says(v, key, JsonModel::Number(Some(n))) || exists|a: Seq<char>, b: Seq<char>|
        crate::text_laws::is_blank(a) && crate::text_laws::is_blank(b) && #[trigger] says(
            v,
            key,
            JsonModel::Text(a + crate::text::decimal(n as nat) + b),
        )
}

/// Whether what an object says under `key` is no number: nothing, a flag, a
/// list, an object, a number that is not whole, or a text with a character that
/// is no digit.
pub open spec fn says_no_number(v: JsonModel, key: Seq<char>) -> bool {
    is_silent(v, key) || says(v, key, JsonModel::Null) || says(v, key, JsonModel::Number(None))
        || says_other(v, key) || exists|s: Seq<char>, i: int|
        #![trigger says(v, key, JsonModel::Text(s)), s[i]]
        says(v, key, JsonModel::Text(s)) && crate::text_laws::is_bare(s) && 0 <= i < s.len()
            && !crate::text::is_digit(s[i], 10) && s[0] != '+'
}

/// Whether an object says a flag, a list or an object under `key`.
pub open spec fn says_other(v: JsonModel, key: Seq<char>) -> bool {
    exists|x: JsonModel|
        (x is Bool || x is Array || x is Object) && #[trigger] says(v, key, x)
}

/// Whether an object says the flag `b` under `key`, or says nothing or something
/// else there and `b` is what counts then.
pub open spec fn says_flag(v: JsonModel, key: Seq<char>, b: bool, otherwise: bool) -> bool {
    says(v, key, JsonModel::Bool(b)) || (is_silent(v, key) && b == otherwise) || (b == otherwise
        && exists|x: JsonModel| !(x is Bool) && #[trigger] says(v, key, x))
}

/// A field is found by its name.
proof fn lemma_field(v: JsonModel, key: Seq<char>)
    ensures
        forall|x: JsonModel| #[trigger] says(v, key, x) ==> crate::http::field_of(v, key) == x,
        is_silent(v, key) ==> crate::http::field_of(v, key) == JsonModel::Null,
{
    if let JsonModel::Object(fields) = v {
        let p = crate::http::has_key(key);
        crate::lists::lemma_first_where(fields, p);
        assert forall|x: JsonModel| #[trigger] says(v, key, x) implies crate::http::field_of(v, key)
            == x by {
            let i = choose|i: int|
                0 <= i < fields.len() && #[trigger] fields[i] == (key, x) && forall|j: int|
                    0 <= j < i ==> (#[trigger] fields[j]).0 != key;
            assert(p(fields[i]));
            crate::lists::lemma_first_where_is(fields, p, i);
        }
    }
}

proof fn lemma_number(v: JsonModel, key: Seq<char>, n: u64)
    requires
        says_number(v, key, n),
    ensures
        crate::http::u64_of(crate::http::field_of(v, key)) == Some(n),
{
    lemma_field(v, key);
    let d = crate::text::decimal(n as nat);
    crate::text_laws::law_numeral_bare(n as nat);
    crate::text_laws::law_decimal_shortest(n as nat);
    crate::text::law_number_round_trip(n as nat, u64::MAX as nat);
    if !says(v, key, JsonModel::Number(Some(n))) {
        let (a, b) = choose|a: Seq<char>, b: Seq<char>|
            crate::text_laws::is_blank(a) && crate::text_laws::is_blank(b) && #[trigger] says(
                v,
                key,
                JsonModel::Text(a + d + b),
            );
        assert(!crate::text::is_white(d[0]) && !crate::text::is_white(d[d.len() - 1]));
        crate::text_laws::law_trimmed(a, d, b);
    }
}

proof fn lemma_no_number(v: JsonModel, key: Seq<char>)
    requires
        says_no_number(v, key),
    ensures
        crate::http::u64_of(crate::http::field_of(v, key)) is None,
        crate::http::port_of(crate::http::field_of(v, key)) is None,
{
    lemma_field(v, key);
    let f = crate::http::field_of(v, key);
    if is_silent(v, key) || says(v, key, JsonModel::Null) || says(v, key, JsonModel::Number(None))
        || says_other(v, key) {
    } else {
        let (s, i) = choose|s: Seq<char>, i: int|
            #![trigger says(v, key, JsonModel::Text(s)), s[i]]
            says(v, key, JsonModel::Text(s)) && crate::text_laws::is_bare(s) && 0 <= i < s.len()
                && !crate::text::is_digit(s[i], 10) && s[0] != '+';
        let none = Seq::<char>::empty();
        crate::text_laws::law_trimmed(none, s, none);
        crate::text_laws::law_no_number(s, 10, u64::MAX as int, i);
        assert(f == JsonModel::Text(s));
    }
}

/// A posted object that names a peer, a remote port, a local port and a
/// protocol asks to connect with exactly these. Without a local port it is the
/// remote one, and without a protocol it is TCP.
pub proof fn law_connect(
    v: JsonModel,
    peer: u64,
    remote_port: u16,
    local_port: u16,
    udp: bool,
)
    requires
        says_number(v, "peer"@, peer),
        says_number(v, "remote_port"@, remote_port as u64),
        remote_port > 0,
        local_port > 0,
        says_number(v, "local_port"@, local_port as u64) || (says_no_number(v, "local_port"@)
            && local_port == remote_port),
        says_flag(v, "udp"@, udp, false),
    ensures
        crate::http::command_of("/api/connect"@, v) == Ok::<CommandModel, Seq<char>>(
            CommandModel::Connect { peer, remote_port, local_port, udp },
        ),
{
    lemma_paths();
    lemma_number(v, "peer"@, peer);
    lemma_number(v, "remote_port"@, remote_port as u64);
    lemma_field(v, "local_port"@);
    lemma_field(v, "udp"@);
    if says_number(v, "local_port"@, local_port as u64) {
        lemma_number(v, "local_port"@, local_port as u64);
    } else {
        lemma_no_number(v, "local_port"@);
    }
}

/// Nobody is connected to without a valid remote port and a peer, and the
/// answer says which is missing.
pub proof fn law_connect_refused(v: JsonModel, n: u64, port: u16)
    ensures
        says_no_number(v, "remote_port"@) || (says_number(v, "remote_port"@, n) && !(1 <= n
            <= 65535)) ==> crate::http::command_of("/api/connect"@, v) == Err::<
            CommandModel,
            Seq<char>,
        >("invalid remote port"@),
        says_number(v, "remote_port"@, port as u64) && port > 0 && says_no_number(v, "peer"@)
            ==> crate::http::command_of("/api/connect"@, v) == Err::<CommandModel, Seq<char>>(
            "invalid steam id"@,
        ),
{
    lemma_paths();
    if says_no_number(v, "peer"@) {
        lemma_no_number(v, "peer"@);
    }
    if says_no_number(v, "remote_port"@) {
        lemma_no_number(v, "remote_port"@);
    }
    if says_number(v, "remote_port"@, n) {
        lemma_number(v, "remote_port"@, n);
    }
    if says_number(v, "remote_port"@, port as u64) {
        lemma_number(v, "remote_port"@, port as u64);
    }
}

/// The target that a posted object names: a text with something in it other
/// than white space, which is left out around it.
pub open spec fn says_target(v: JsonModel, target: Option<Seq<char>>) -> bool {
    match target {
        Some(t) => t.len() > 0 && crate::text_laws::is_bare(t) && exists|a: Seq<char>, b: Seq<char>|
            crate::text_laws::is_blank(a) && crate::text_laws::is_blank(b) && #[trigger] says(
                v,
                "target"@,
                JsonModel::Text(a + t + b),
            ),
        None => is_silent(v, "target"@) || (exists|x: JsonModel|
            !(x is Text) && #[trigger] says(v, "target"@, x)) || exists|a: Seq<char>|
            crate::text_laws::is_blank(a) && #[trigger] says(v, "target"@, JsonModel::Text(a)),
    }
}

proof fn lemma_target(v: JsonModel, target: Option<Seq<char>>)
    requires
        says_target(v, target),
    ensures
        crate::http::target_of(crate::http::field_of(v, "target"@)) == target,
{
    lemma_field(v, "target"@);
    let none = Seq::<char>::empty();
    match target {
        Some(t) => {
            let (a, b) = choose|a: Seq<char>, b: Seq<char>|
                crate::text_laws::is_blank(a) && crate::text_laws::is_blank(b) && #[trigger] says(
                    v,
                    "target"@,
                    JsonModel::Text(a + t + b),
                );
            crate::text_laws::law_trimmed(a, t, b);
        },
        None => {
            if exists|x: JsonModel| !(x is Text) && #[trigger] says(v, "target"@, x) {
            } else if !is_silent(v, "target"@) {
                let a = choose|a: Seq<char>|
                    crate::text_laws::is_blank(a) && #[trigger] says(
                        v,
                        "target"@,
                        JsonModel::Text(a),
                    );
                crate::text_laws::law_trimmed(a, none, none);
                assert(a + none + none =~= a);
            }
        },
    }
}

/// Whether a target is written as a host, a colon and a port number.
pub open spec fn is_address(t: Seq<char>) -> bool {
    exists|host: Seq<char>, port: u16|
        host.len() > 0 && t == #[trigger] address(host, port)
}

pub open spec fn address(host: Seq<char>, port: u16) -> Seq<char> {
    host + seq![':'] + crate::text::decimal(port as nat)
}

proof fn lemma_address(t: Seq<char>)
    requires
        is_address(t),
    ensures
        crate::http::target_ok(t),
{
    let (host, port) = choose|host: Seq<char>, port: u16|
        host.len() > 0 && t == #[trigger] address(host, port);
    let d = crate::text::decimal(port as nat);
    crate::text::lemma_decimal_digits(port as nat);
    assert(!d.contains(':')) by {
        if d.contains(':') {
            let i = choose|i: int| 0 <= i < d.len() && d[i] == ':';
            assert(crate::text::is_digit(d[i], 10));
        }
    }
    crate::text_laws::law_split(host, ':', d);
    crate::text::law_number_round_trip(port as nat, 65535);
}

/// A posted object that names a port, a protocol and a target asks to share
/// exactly these: the target, if it is named, is the address that is forwarded
/// to.
pub proof fn law_share(v: JsonModel, port: u16, udp: bool, target: Option<Seq<char>>)
    requires
        says_number(v, "port"@, port as u64),
        port > 0,
        says_flag(v, "udp"@, udp, false),
        says_target(v, target),
        target matches Some(t) ==> is_address(t),
    ensures
        crate::http::command_of("/api/share"@, v) matches Ok(
            CommandModel::Share { port: p, udp: u, target: t, label },
        ) && p == port && u == udp && t == target,
{
    lemma_paths();
    lemma_number(v, "port"@, port as u64);
    lemma_field(v, "udp"@);
    lemma_target(v, target);
    if let Some(t) = target {
        lemma_address(t);
    }
}

/// A share or the end of one needs a valid port, and a target without a colon
/// is refused.
pub proof fn law_share_refused(v: JsonModel, n: u64, t: Seq<char>)
    ensures
        is_silent(v, "port"@) ==> crate::http::command_of("/api/share"@, v) is Err
            && crate::http::command_of("/api/unshare"@, v) is Err,
        says_number(v, "port"@, n) && !(1 <= n <= 65535) ==> crate::http::command_of(
            "/api/share"@,
            v,
        ) is Err && crate::http::command_of("/api/unshare"@, v) is Err,
        says_target(v, Some(t)) && !t.contains(':') ==> crate::http::command_of(
            "/api/share"@,
            v,
        ) == Err::<CommandModel, Seq<char>>("target must be host:port"@),
{
    lemma_paths();
    lemma_field(v, "port"@);
    if says_number(v, "port"@, n) {
        lemma_number(v, "port"@, n);
    }
    if says_target(v, Some(t)) && !t.contains(':') {
        lemma_target(v, Some(t));
        crate::text_laws::law_split(Seq::empty(), ':', t);
    }
}

/// What is posted to end a share, to remove a mapping or to drop an invitation
/// names exactly the one that is meant.
pub proof fn law_removals(v: JsonModel, port: u16, udp: bool, id: u64)
    ensures
        says_number(v, "port"@, port as u64) && port > 0 && says_flag(v, "udp"@, udp, false)
            ==> crate::http::command_of("/api/unshare"@, v) == Ok::<CommandModel, Seq<char>>(
            CommandModel::Unshare { port, udp },
        ),
        says_number(v, "id"@, id) ==> crate::http::command_of("/api/stop_mapping"@, v) == Ok::<
            CommandModel,
            Seq<char>,
        >(CommandModel::StopMapping { id }),
        says_number(v, "id"@, id) ==> crate::http::command_of("/api/dismiss_invite"@, v) == Ok::<
            CommandModel,
            Seq<char>,
        >(CommandModel::DismissInvite { id }),
        is_silent(v, "id"@) ==> crate::http::command_of("/api/stop_mapping"@, v) is Err
            && crate::http::command_of("/api/dismiss_invite"@, v) is Err,
{
    lemma_paths();
    lemma_field(v, "udp"@);
    lemma_field(v, "id"@);
    if says_number(v, "port"@, port as u64) {
        lemma_number(v, "port"@, port as u64);
    }
    if says_number(v, "id"@, id) {
        lemma_number(v, "id"@, id);
    }
}

/// Whether a list of objects names ports, one each, in order.
pub open spec fn names_ports(items: Seq<JsonModel>, ports: Seq<PortSpec>) -> bool {
    &&& items.len() == ports.len()
    &&& forall|i: int|
        0 <= i < items.len() ==> (#[trigger] ports[i]).port > 0 && says_number(
            items[i],
            "port"@,
            ports[i].port as u64,
        ) && says_flag(items[i], "udp"@, ports[i].udp, false)
}

proof fn lemma_ports(items: Seq<JsonModel>, ports: Seq<PortSpec>)
    requires
        names_ports(items, ports),
    ensures
        crate::http::ports_of(items) == Some(ports),
    decreases items.len(),
{
    if items.len() == 0 {
        assert(ports =~= Seq::empty());
    } else {
        let n = items.len() - 1;
        let init = ports.drop_last();
        assert(names_ports(items.drop_last(), init)) by {
            assert forall|i: int| 0 <= i < n implies (#[trigger] init[i]).port > 0 && says_number(
                items.drop_last()[i],
                "port"@,
                init[i].port as u64,
            ) && says_flag(items.drop_last()[i], "udp"@, init[i].udp, false) by {
                assert(ports[i] == init[i]);
            }
        }
        lemma_ports(items.drop_last(), init);
        assert(ports[n].port > 0);
        lemma_number(items[n], "port"@, ports[n].port as u64);
        lemma_field(items[n], "udp"@);
        assert(init.push(ports[n]) =~= ports);
    }
}

/// A posted object that names a peer and ports, as a list or a single one,
/// asks to invite exactly that peer to exactly these ports, in that order.
pub proof fn law_invite(v: JsonModel, peer: u64, items: Seq<JsonModel>, ports: Seq<PortSpec>)
    requires
        says_number(v, "peer"@, peer),
        (says(v, "ports"@, JsonModel::Array(items)) && names_ports(items, ports)) || (is_silent(
            v,
            "ports"@,
        ) && ports.len() == 1 && ports[0].port > 0 && says_number(
            v,
            "port"@,
            ports[0].port as u64,
        ) && says_flag(v, "udp"@, ports[0].udp, false)),
    ensures
        crate::http::command_of("/api/invite"@, v) matches Ok(
            CommandModel::Invite { peer: p, ports: ps, label },
        ) && p == peer && ps == ports,
{
    lemma_paths();
    lemma_number(v, "peer"@, peer);
    lemma_field(v, "ports"@);
    lemma_field(v, "udp"@);
    if says(v, "ports"@, JsonModel::Array(items)) {
        lemma_ports(items, ports);
    } else {
        lemma_number(v, "port"@, ports[0].port as u64);
        assert(seq![ports[0]] =~= ports);
    }
}

/// A label is what is posted as one, without the white space around it; no
/// label is an empty one.
pub proof fn law_label(v: JsonModel, a: Seq<char>, s: Seq<char>, b: Seq<char>)
    requires
        crate::text_laws::is_blank(a),
        crate::text_laws::is_blank(b),
        crate::text_laws::is_bare(s),
        says(v, "label"@, JsonModel::Text(a + s + b)) || (is_silent(v, "label"@) && s.len() == 0),
    ensures
        crate::http::command_of("/api/share"@, v) matches Ok(
            CommandModel::Share { port, udp, target, label },
        ) ==> label == s,
        crate::http::command_of("/api/invite"@, v) matches Ok(
            CommandModel::Invite { peer, ports, label },
        ) ==> label == s,
{
    lemma_paths();
    lemma_field(v, "label"@);
    crate::text_laws::law_trimmed(a, s, b);
    if s.len() == 0 {
        assert(s =~= Seq::empty());
    }
}

/// The lines of a posted allowlist are those of its parts, in order: a number
/// gives its numeral, a text what it says without the white space around it,
/// and what is blank or neither gives no line.
pub proof fn law_allow_lines(
    x: Seq<JsonModel>,
    y: Seq<JsonModel>,
    n: u64,
    q: bool,
    a: Seq<char>,
    s: Seq<char>,
    b: Seq<char>,
)
    requires
        crate::text_laws::is_blank(a),
        crate::text_laws::is_blank(b),
        crate::text_laws::is_bare(s),
    ensures
        crate::http::allow_lines_of(x + y) == crate::http::allow_lines_of(x)
            + crate::http::allow_lines_of(y),
        crate::http::allow_lines_of(seq![JsonModel::Number(Some(n))]) == seq![
            crate::text::decimal(n as nat),
        ],
        crate::http::allow_lines_of(seq![JsonModel::Text(a + s + b)]) == if s.len() > 0 {
            seq![s]
        } else {
            Seq::empty()
        },
        crate::http::allow_lines_of(Seq::empty()).len() == 0,
        crate::http::allow_lines_of(seq![JsonModel::Bool(q)]).len() == 0,
        crate::http::allow_lines_of(seq![JsonModel::Null]).len() == 0,
        crate::http::allow_lines_of(seq![JsonModel::Number(None)]).len() == 0,
{
    lemma_allow_lines_add(x, y);
    crate::text_laws::law_trimmed(a, s, b);
    lemma_allow_one(JsonModel::Number(Some(n)));
    lemma_allow_one(JsonModel::Text(a + s + b));
    lemma_allow_one(JsonModel::Null);
    lemma_allow_one(JsonModel::Number(None));
    lemma_allow_one(JsonModel::Bool(q));
}

proof fn lemma_allow_one(v: JsonModel)
    ensures
        crate::http::allow_lines_of(seq![v]) == match crate::http::allow_line_of(v) {
            Some(line) => seq![line],
            None => Seq::empty(),
        },
{
    let none = Seq::<JsonModel>::empty();
    assert(seq![v].drop_last() =~= none);
    assert(crate::http::allow_lines_of(none) =~= Seq::<Seq<char>>::empty());
    assert(seq![v].last() == v);
    if let Some(line) = crate::http::allow_line_of(v) {
        assert(crate::http::allow_lines_of(seq![v]) =~= seq![line]);
    }
}

proof fn lemma_allow_lines_add(x: Seq<JsonModel>, y: Seq<JsonModel>)
    ensures
        crate::http::allow_lines_of(x + y) == crate::http::allow_lines_of(x)
            + crate::http::allow_lines_of(y),
    decreases y.len(),
{
    let all = crate::http::allow_lines_of(x) + crate::http::allow_lines_of(y);
    if y.len() == 0 {
        assert(x + y =~= x);
        assert(all =~= crate::http::allow_lines_of(x));
    } else {
        lemma_allow_lines_add(x, y.drop_last());
        assert((x + y).drop_last() =~= x + y.drop_last());
        assert(crate::http::allow_lines_of(x + y) =~= all);
    }
}

/// Posted settings are taken as they are: the allowlist, the send rate and the
/// two wishes for notifications, which are granted unless refused. Without an
/// allowlist it is empty, without a rate it is 0, and one that is too large
/// counts as the largest.
pub proof fn law_settings(v: JsonModel, items: Seq<JsonModel>, rate: u64, events: bool, idle: bool)
    requires
        says(v, "allowlist"@, JsonModel::Array(items)) || (is_silent(v, "allowlist"@)
            && items.len() == 0),
        says_number(v, "send_rate_kib"@, rate) || (says_no_number(v, "send_rate_kib"@) && rate
            == 0),
        says_flag(v, "notify_events"@, events, true),
        says_flag(v, "notify_idle_shares"@, idle, true),
    ensures
        crate::http::command_of("/api/settings"@, v) matches Ok(
            CommandModel::SetSettings {
                psk,
                allowlist,
                send_rate_kib,
                notify_events,
                notify_idle_shares,
            },
        ) && {
            &&& allowlist == crate::http::allow_lines_of(items)
            &&& rate <= u32::MAX ==> send_rate_kib == rate
            &&& rate > u32::MAX ==> send_rate_kib == u32::MAX
            &&& notify_events == events
            &&& notify_idle_shares == idle
        },
{
    lemma_paths();
    lemma_field(v, "allowlist"@);
    lemma_field(v, "send_rate_kib"@);
    lemma_field(v, "notify_events"@);
    lemma_field(v, "notify_idle_shares"@);
    if says_number(v, "send_rate_kib"@, rate) {
        lemma_number(v, "send_rate_kib"@, rate);
    } else {
        lemma_no_number(v, "send_rate_kib"@);
    }
    if items.len() == 0 {
        assert(crate::http::allow_lines_of(items) =~= Seq::empty());
    }
}

/// What becomes of the key: a posted one replaces it, an explicit wish clears
/// it, and otherwise it stays, as everything else does that is no setting.
pub proof fn law_posted_key(v: JsonModel, cfg: ConfigModel, key: Seq<char>, clear: bool)
    requires
        says(v, "psk"@, JsonModel::Text(key)) || (is_silent(v, "psk"@) && key.len() == 0),
        says_flag(v, "clear_psk"@, clear, false),
    ensures
        crate::http::command_of("/api/settings"@, v) matches Ok(
            CommandModel::SetSettings {
                psk,
                allowlist,
                send_rate_kib,
                notify_events,
                notify_idle_shares,
            },
        ) && {
            let after = crate::state::configured(cfg, psk, allowlist, send_rate_kib);
            &&& clear ==> after.psk.len() == 0
            &&& !clear && key.len() > 0 ==> after.psk == key
            &&& !clear && key.len() == 0 ==> after.psk == cfg.psk
            &&& after.allowlist == allowlist
            &&& after.send_rate_kib == send_rate_kib
            &&& after.ui_port == cfg.ui_port
        },
{
    lemma_paths();
    lemma_field(v, "psk"@);
    lemma_field(v, "clear_psk"@);
}

/// The paths differ.
proof fn lemma_paths()
    ensures
        "/api/share"@ != "/api/unshare"@,
        "/api/share"@ != "/api/connect"@,
        "/api/share"@ != "/api/stop_mapping"@,
        "/api/share"@ != "/api/invite"@,
        "/api/share"@ != "/api/dismiss_invite"@,
        "/api/share"@ != "/api/settings"@,
        "/api/unshare"@ != "/api/connect"@,
        "/api/unshare"@ != "/api/stop_mapping"@,
        "/api/unshare"@ != "/api/invite"@,
        "/api/unshare"@ != "/api/dismiss_invite"@,
        "/api/unshare"@ != "/api/settings"@,
        "/api/connect"@ != "/api/stop_mapping"@,
        "/api/connect"@ != "/api/invite"@,
        "/api/connect"@ != "/api/dismiss_invite"@,
        "/api/connect"@ != "/api/settings"@,
        "/api/stop_mapping"@ != "/api/invite"@,
        "/api/stop_mapping"@ != "/api/dismiss_invite"@,
        "/api/stop_mapping"@ != "/api/settings"@,
        "/api/invite"@ != "/api/dismiss_invite"@,
        "/api/invite"@ != "/api/settings"@,
        "/api/dismiss_invite"@ != "/api/settings"@,
{
    reveal_strlit("/api/share");
    reveal_strlit("/api/unshare");
    reveal_strlit("/api/connect");
    reveal_strlit("/api/stop_mapping");
    reveal_strlit("/api/invite");
    reveal_strlit("/api/dismiss_invite");
    reveal_strlit("/api/settings");
    assert("/api/unshare"@[5] == 'u' && "/api/connect"@[5] == 'c');
    assert("/api/settings"@[5] == 's');
    assert("/api/share"@.len() == 10 && "/api/unshare"@.len() == 12 && "/api/connect"@.len() == 12);
    assert("/api/invite"@.len() == 11 && "/api/settings"@.len() == 13);
    assert("/api/stop_mapping"@.len() == 17 && "/api/dismiss_invite"@.len() == 19);
}

/// The names of this machine.
pub open spec fn is_own_name(name: Seq<char>) -> bool {
    name == "127.0.0.1"@ || name == "localhost"@ || name == "[::1]"@
}

/// No name of this machine ends with a colon and a number.
proof fn lemma_own_names(name: Seq<char>, b: Seq<char>, d: Seq<char>)
    requires
        is_own_name(name),
        d.len() > 0,
        crate::text::all_digits(d, 10),
    ensures
        name != b + (seq![':'] + d),
{
    reveal_strlit("127.0.0.1");
    reveal_strlit("localhost");
    reveal_strlit("[::1]");
    let s = b + (seq![':'] + d);
    if name == s {
        let k = b.len() as int;
        assert(s[k] == ':');
        assert(s.last() == d[d.len() - 1]);
        assert(crate::text::is_digit(d[d.len() - 1], 10));
        assert("[::1]"@.last() == ']');
        assert("localhost"@.last() == 't');
        let n = "127.0.0.1"@;
        assert(n[0] == '1' && n[1] == '2' && n[2] == '7' && n[3] == '.' && n[4] == '0' && n[5]
            == '.' && n[6] == '0' && n[7] == '.' && n[8] == '1' && n.len() == 9);
        assert(0 <= k < 9);
    }
}

/// A text names this machine if and only if it is one of its three names, bare
/// or with the port of the web page; white space around it does not matter.
pub proof fn law_local_host(value: Seq<char>, port: u16)
    ensures
        ({
            let v = crate::text::trimmed(value);
            crate::http::local_host(value, port) <==> is_own_name(v) || v == address(
                "127.0.0.1"@,
                port,
            ) || v == address("localhost"@, port) || v == address("[::1]"@, port)
        }),
{
    let v = crate::text::trimmed(value);
    let d = crate::text::decimal(port as nat);
    let suffix = crate::http::port_suffix(port);
    reveal_strlit(":");
    assert(suffix =~= seq![':'] + d);
    crate::text::lemma_decimal_digits(port as nat);
    crate::text_laws::law_affixes(v, suffix);
    lemma_with_port("127.0.0.1"@, port);
    lemma_with_port("localhost"@, port);
    lemma_with_port("[::1]"@, port);
    if let Some(b) = crate::text::without_suffix(v, suffix) {
        if is_own_name(v) {
            lemma_own_names(v, b, d);
        }
        assert(b + (seq![':'] + d) =~= address(b, port));
    }
}

proof fn lemma_with_port(name: Seq<char>, port: u16)
    ensures
        crate::text::without_suffix(address(name, port), crate::http::port_suffix(port)) == Some(
            name,
        ),
{
    let d = crate::text::decimal(port as nat);
    let suffix = crate::http::port_suffix(port);
    reveal_strlit(":");
    assert(suffix =~= seq![':'] + d);
    assert(name + suffix =~= address(name, port));
    crate::text_laws::law_affixes(name, suffix);
}

/// Which requests do anything: only a post under a name of this machine, with
/// the marking header, queues a command, and it is the one of its path and
/// body. Everything else changes nothing.
pub proof fn law_accepted(req: RequestModel, v: JsonModel, port: u16, i: int, j: int)
    requires
        0 <= i < req.headers.len(),
        req.headers[i].name == "Host"@,
        forall|k: int|
            0 <= k < i ==> !crate::text::same_ignoring_case(
                (#[trigger] req.headers[k]).name,
                "Host"@,
            ),
        0 <= j < req.headers.len(),
        req.headers[j].name == "X-ST"@,
        req.method == Method::Post,
    ensures
        crate::http::local_host(req.headers[i].value, port) ==> match crate::http::command_of(
            req.url,
            v,
        ) {
            Ok(cmd) => crate::http::accepted_command(req, v, port) == Some(cmd)
                && crate::http::reply_to(req, v, port) == (ReplyModel::Json {
                status: 200,
                body: "{\"ok\":true}"@,
            }),
            Err(e) => crate::http::accepted_command(req, v, port) is None && crate::http::reply_to(
                req,
                v,
                port,
            ) == (ReplyModel::Json {
                status: 400,
                body: "{\"ok\":false,\"error\":\""@ + e + "\"}"@,
            }),
        },
        !crate::http::local_host(req.headers[i].value, port) ==> crate::http::accepted_command(
            req,
            v,
            port,
        ) is None && (crate::http::reply_to(req, v, port) matches ReplyModel::Json { status, body }
            && status == 403),
{
    let host = crate::http::named("Host"@);
    let mark = crate::http::named("X-ST"@);
    crate::text_laws::law_case('a', 'a');
    assert(host(req.headers[i]));
    crate::lists::lemma_first_where_is(req.headers, host, i);
    crate::lists::lemma_first_where(req.headers, mark);
    assert(mark(req.headers[j]));
}

/// A request without a header for the host, or a post without the marking
/// header, is refused and queues nothing.
pub proof fn law_unmarked_refused(req: RequestModel, v: JsonModel, port: u16)
    ensures
        (forall|k: int|
            0 <= k < req.headers.len() ==> !crate::text::same_ignoring_case(
                (#[trigger] req.headers[k]).name,
                "Host"@,
            )) || (req.method == Method::Post && forall|k: int|
            0 <= k < req.headers.len() ==> !crate::text::same_ignoring_case(
                (#[trigger] req.headers[k]).name,
                "X-ST"@,
            )) ==> crate::http::accepted_command(req, v, port) is None && (crate::http::reply_to(
            req,
            v,
            port,
        ) matches ReplyModel::Json { status, body } && status == 403),
        req.method != Method::Post ==> crate::http::accepted_command(req, v, port) is None,
{
    crate::lists::lemma_first_where(req.headers, crate::http::named("Host"@));
    crate::lists::lemma_first_where(req.headers, crate::http::named("X-ST"@));
}

/// What can be looked at: the page under `/`, the snapshot under `/api/state`,
/// and nothing else.
pub proof fn law_pages(req: RequestModel, v: JsonModel, port: u16)
    requires
        crate::http::host_accepted(req.headers, port),
        req.method == Method::Get,
    ensures
        crate::http::reply_to(req, v, port) is Index <==> req.url == "/"@,
        crate::http::reply_to(req, v, port) is State <==> req.url == "/api/state"@,
        crate::http::reply_to(req, v, port) is NotFound <==> req.url != "/"@ && req.url
            != "/api/state"@,
{
    reveal_strlit("/");
    reveal_strlit("/api/state");
    assert("/"@.len() == 1 && "/api/state"@.len() == 10);
}

/// A path that is none of ours gives no command.
pub proof fn law_unknown_path(path: Seq<char>, v: JsonModel)
    requires
        path != "/api/share"@,
        path != "/api/unshare"@,
        path != "/api/connect"@,
        path != "/api/stop_mapping"@,
        path != "/api/invite"@,
        path != "/api/dismiss_invite"@,
        path != "/api/settings"@,
    ensures
        crate::http::command_of(path, v) is Err,
{
}


/// A target is a host, a colon and a port number: neither without a host, nor
/// with anything else behind the last colon.
pub proof fn law_target_form(host: Seq<char>, p: Seq<char>)
    requires
        !p.contains(':'),
    ensures
        crate::http::target_ok(host + seq![':'] + p) <==> host.len() > 0
            && crate::text::parsed_number(p, 10, 65535) is Some,
        !crate::http::target_ok(p),
{
    crate::text_laws::law_split(host, ':', p);
}

/// A port outside of its range, or none, refuses a share, the end of one, and
/// an invitation, with the same words; one that names no peer is refused too.
pub proof fn law_port_messages(v: JsonModel, n: u64, ports: Seq<PortSpec>, items: Seq<JsonModel>, k: int)
    ensures
        says_no_number(v, "port"@) || (says_number(v, "port"@, n) && !(1 <= n <= 65535)) ==> {
            let refused = Err::<CommandModel, Seq<char>>("invalid port"@);
            &&& crate::http::command_of("/api/unshare"@, v) == refused
            &&& is_silent(v, "ports"@) ==> crate::http::command_of("/api/invite"@, v) == refused
            &&& says_target(v, None) ==> crate::http::command_of("/api/share"@, v) == refused
        },
        says(v, "ports"@, JsonModel::Array(items)) && 0 <= k < items.len() && says_no_number(
            items[k],
            "port"@,
        ) ==> crate::http::command_of("/api/invite"@, v) == Err::<CommandModel, Seq<char>>(
            "invalid port in ports"@,
        ),
        says(v, "ports"@, JsonModel::Array(items)) && names_ports(items, ports) && says_no_number(
            v,
            "peer"@,
        ) ==> crate::http::command_of("/api/invite"@, v) == Err::<CommandModel, Seq<char>>(
            "invalid steam id"@,
        ),
        says_no_number(v, "id"@) ==> crate::http::command_of("/api/stop_mapping"@, v) == Err::<
            CommandModel,
            Seq<char>,
        >("invalid id"@) && crate::http::command_of("/api/dismiss_invite"@, v) == Err::<
            CommandModel,
            Seq<char>,
        >("invalid id"@),
{
    lemma_paths();
    lemma_field(v, "ports"@);
    if says_no_number(v, "port"@) {
        lemma_no_number(v, "port"@);
    }
    if says_number(v, "port"@, n) {
        lemma_number(v, "port"@, n);
    }
    if says_target(v, None) {
        lemma_target(v, None);
    }
    if says(v, "ports"@, JsonModel::Array(items)) {
        if 0 <= k < items.len() && says_no_number(items[k], "port"@) {
            lemma_bad_port(items, k);
        }
        if names_ports(items, ports) {
            lemma_ports(items, ports);
        }
    }
    if says_no_number(v, "peer"@) {
        lemma_no_number(v, "peer"@);
    }
    if says_no_number(v, "id"@) {
        lemma_no_number(v, "id"@);
    }
}

proof fn lemma_bad_port(items: Seq<JsonModel>, k: int)
    requires
        0 <= k < items.len(),
        says_no_number(items[k], "port"@),
    ensures
        crate::http::ports_of(items) is None,
    decreases items.len(),
{
    if k == items.len() - 1 {
        lemma_no_number(items[k], "port"@);
    } else {
        assert(items.drop_last()[k] == items[k]);
        lemma_bad_port(items.drop_last(), k);
    }
}

/// What is posted as something else than a text is no label and no key, and
/// what is posted as something else than a list is no allowlist.
pub proof fn law_other_kinds(v: JsonModel, x: JsonModel)
    ensures
        says(v, "label"@, x) && !(x is Text) ==> (crate::http::command_of(
            "/api/share"@,
            v,
        ) matches Ok(CommandModel::Share { port, udp, target, label }) ==> label.len() == 0),
        says(v, "psk"@, x) && !(x is Text) && is_silent(v, "clear_psk"@) ==> (
        crate::http::command_of("/api/settings"@, v) matches Ok(
            CommandModel::SetSettings {
                psk,
                allowlist,
                send_rate_kib,
                notify_events,
                notify_idle_shares,
            },
        ) && psk is None),
        says(v, "allowlist"@, x) && !(x is Array) ==> (crate::http::command_of(
            "/api/settings"@,
            v,
        ) matches Ok(
            CommandModel::SetSettings {
                psk,
                allowlist,
                send_rate_kib,
                notify_events,
                notify_idle_shares,
            },
        ) && allowlist.len() == 0),
{
    lemma_paths();
    lemma_field(v, "label"@);
    lemma_field(v, "psk"@);
    lemma_field(v, "clear_psk"@);
    lemma_field(v, "allowlist"@);
}

/// A method other than the two that are known finds nothing, and a body that is
/// no JSON says nothing.
pub proof fn law_other_requests(req: RequestModel, v: JsonModel, port: u16, body: Seq<char>)
    ensures
        crate::http::host_accepted(req.headers, port) && req.method == Method::Other
            ==> crate::http::reply_to(req, v, port) is NotFound,
        crate::json::text_contents(body) is None ==> crate::json::body_contents(body)
            == JsonModel::Null,
        crate::json::text_contents(body) matches Some(j) ==> crate::json::body_contents(body) == j,
{
}

} // verus!
