//! The web interface: which requests are answered, and the commands that
//! they give.
use vstd::prelude::*;
use vstd::string::*;

use crate::json::{parse_body, Json, JsonModel};
use crate::state::{Command, CommandModel, PortSpec, SharedInner};
use crate::text::{equal_ignoring_case, number, parse_number, rsplit_once, same, strip_suffix, trim};

verus! {

/// The field `key` of an object; null for anything else.
pub open spec fn field_of(v: JsonModel, key: Seq<char>) -> JsonModel {
    match v {
        JsonModel::Object(fields) => match crate::lists::first_where(fields, has_key(key)) {
            Some(i) => fields[i].1,
            None => JsonModel::Null,
        },
        _ => JsonModel::Null,
    }
}

pub open spec fn has_key(key: Seq<char>) -> spec_fn((Seq<char>, JsonModel)) -> bool {
    |f: (Seq<char>, JsonModel)| f.0 == key
}

/// A whole number, or a text that writes one.
pub open spec fn u64_of(v: JsonModel) -> Option<u64> {
    match v {
        JsonModel::Number(n) => n,
        JsonModel::Text(s) => match crate::text::parsed_number(
            crate::text::trimmed(s),
            10,
            u64::MAX as int,
        ) {
            Some(n) => Some(n as u64),
            None => None,
        },
        _ => None,
    }
}

/// A port number: 1 to 65535.
pub open spec fn port_of(v: JsonModel) -> Option<u16> {
    match u64_of(v) {
        Some(n) => if 1 <= n <= 65535 {
            Some(n as u16)
        } else {
            None
        },
        None => None,
    }
}

pub open spec fn bool_of(v: JsonModel, otherwise: bool) -> bool {
    match v {
        JsonModel::Bool(b) => b,
        _ => otherwise,
    }
}

pub open spec fn text_of(v: JsonModel) -> Option<Seq<char>> {
    match v {
        JsonModel::Text(s) => Some(s),
        _ => None,
    }
}

/// A label: trimmed, and empty if it is not a text.
pub open spec fn label_of(v: JsonModel) -> Seq<char> {
    match text_of(v) {
        Some(s) => crate::text::trimmed(s),
        None => Seq::empty(),
    }
}

/// Whether a target has the form `host:port`.
pub open spec fn target_ok(t: Seq<char>) -> bool {
    match crate::text::split_at_last(t, ':') {
        Some((host, p)) => host.len() > 0 && crate::text::parsed_number(p, 10, 65535) is Some,
        None => false,
    }
}

/// The target of a share: none if it is not a text or is blank.
pub open spec fn target_of(v: JsonModel) -> Option<Seq<char>> {
    match text_of(v) {
        Some(s) => if crate::text::trimmed(s).len() > 0 {
            Some(crate::text::trimmed(s))
        } else {
            None
        },
        None => None,
    }
}

/// The ports of a list, if all of them are valid.
pub open spec fn ports_of(items: Seq<JsonModel>) -> Option<Seq<PortSpec>>
    decreases items.len(),
{
    if items.len() == 0 {
        Some(Seq::empty())
    } else {
        match (ports_of(items.drop_last()), port_of(field_of(items.last(), "port"@))) {
            (Some(before), Some(port)) => Some(
                before.push(
                    PortSpec { port, udp: bool_of(field_of(items.last(), "udp"@), false) },
                ),
            ),
            _ => None,
        }
    }
}

/// The line that an entry of the allowlist gives, if any.
pub open spec fn allow_line_of(v: JsonModel) -> Option<Seq<char>> {
    match v {
        JsonModel::Number(Some(n)) => Some(crate::text::decimal(n as nat)),
        JsonModel::Text(s) => if crate::text::trimmed(s).len() > 0 {
            Some(crate::text::trimmed(s))
        } else {
            None
        },
        _ => None,
    }
}

pub open spec fn allow_lines_of(items: Seq<JsonModel>) -> Seq<Seq<char>>
    decreases items.len(),
{
    if items.len() == 0 {
        Seq::empty()
    } else {
        let before = allow_lines_of(items.drop_last());
        match allow_line_of(items.last()) {
            Some(line) => before.push(line),
            None => before,
        }
    }
}

/// The allowlist that a value gives: empty if it is not a list.
pub open spec fn allowlist_of(v: JsonModel) -> Seq<Seq<char>> {
    match v {
        JsonModel::Array(items) => allow_lines_of(items),
        _ => Seq::empty(),
    }
}

/// The key that settings give: an empty one if it is to be cleared, none if it
/// is to stay.
pub open spec fn psk_of(v: JsonModel) -> Option<Seq<char>> {
    if bool_of(field_of(v, "clear_psk"@), false) {
        Some(Seq::empty())
    } else {
        match text_of(field_of(v, "psk"@)) {
            Some(s) => if s.len() > 0 {
                Some(s)
            } else {
                None
            },
            None => None,
        }
    }
}

/// The send rate that settings give; one that is too large counts as the
/// largest.
pub open spec fn rate_of(v: JsonModel) -> u32 {
    match u64_of(v) {
        Some(n) => if n > u32::MAX {
            u32::MAX
        } else {
            n as u32
        },
        None => 0,
    }
}

pub open spec fn share_of(v: JsonModel) -> Result<CommandModel, Seq<char>> {
    let target = target_of(field_of(v, "target"@));
    if target matches Some(t) && !target_ok(t) {
        Err("target must be host:port"@)
    } else {
        match port_of(field_of(v, "port"@)) {
            Some(port) => Ok(
                CommandModel::Share {
                    port,
                    udp: bool_of(field_of(v, "udp"@), false),
                    target,
                    label: label_of(field_of(v, "label"@)),
                },
            ),
            None => Err("invalid port"@),
        }
    }
}

pub open spec fn unshare_of(v: JsonModel) -> Result<CommandModel, Seq<char>> {
    match port_of(field_of(v, "port"@)) {
        Some(port) => Ok(
            CommandModel::Unshare { port, udp: bool_of(field_of(v, "udp"@), false) },
        ),
        None => Err("invalid port"@),
    }
}

/// The local port defaults to the remote one.
pub open spec fn connect_of(v: JsonModel) -> Result<CommandModel, Seq<char>> {
    match port_of(field_of(v, "remote_port"@)) {
        Some(remote_port) => match u64_of(field_of(v, "peer"@)) {
            Some(peer) => Ok(
                CommandModel::Connect {
                    peer,
                    remote_port,
                    local_port: match port_of(field_of(v, "local_port"@)) {
                        Some(p) => p,
                        None => remote_port,
                    },
                    udp: bool_of(field_of(v, "udp"@), false),
                },
            ),
            None => Err("invalid steam id"@),
        },
        None => Err("invalid remote port"@),
    }
}

/// The ports that an invitation is for: a list of them, or a single one.
pub open spec fn invite_ports_of(v: JsonModel) -> Result<Seq<PortSpec>, Seq<char>> {
    match field_of(v, "ports"@) {
        JsonModel::Array(items) => match ports_of(items) {
            Some(ports) => Ok(ports),
            None => Err("invalid port in ports"@),
        },
        _ => match port_of(field_of(v, "port"@)) {
            Some(port) => Ok(
                seq![PortSpec { port, udp: bool_of(field_of(v, "udp"@), false) }],
            ),
            None => Err("invalid port"@),
        },
    }
}

pub open spec fn invite_of(v: JsonModel) -> Result<CommandModel, Seq<char>> {
    match invite_ports_of(v) {
        Ok(ports) => match u64_of(field_of(v, "peer"@)) {
            Some(peer) => Ok(
                CommandModel::Invite { peer, ports, label: label_of(field_of(v, "label"@)) },
            ),
            None => Err("invalid steam id"@),
        },
        Err(e) => Err(e),
    }
}

pub open spec fn settings_of(v: JsonModel) -> CommandModel {
    CommandModel::SetSettings {
        psk: psk_of(v),
        allowlist: allowlist_of(field_of(v, "allowlist"@)),
        send_rate_kib: rate_of(field_of(v, "send_rate_kib"@)),
        notify_events: bool_of(field_of(v, "notify_events"@), true),
        notify_idle_shares: bool_of(field_of(v, "notify_idle_shares"@), true),
    }
}

/// The command that a posted value gives on a path, or what is wrong with it.
pub open spec fn command_of(path: Seq<char>, v: JsonModel) -> Result<CommandModel, Seq<char>> {
    if path == "/api/share"@ {
        share_of(v)
    } else if path == "/api/unshare"@ {
        unshare_of(v)
    } else if path == "/api/connect"@ {
        connect_of(v)
    } else if path == "/api/stop_mapping"@ {
        match u64_of(field_of(v, "id"@)) {
            Some(id) => Ok(CommandModel::StopMapping { id }),
            None => Err("invalid id"@),
        }
    } else if path == "/api/invite"@ {
        invite_of(v)
    } else if path == "/api/dismiss_invite"@ {
        match u64_of(field_of(v, "id"@)) {
            Some(id) => Ok(CommandModel::DismissInvite { id }),
            None => Err("invalid id"@),
        }
    } else if path == "/api/settings"@ {
        Ok(settings_of(v))
    } else {
        Err("unknown endpoint"@)
    }
}

/// The field `key` of an object, if there is one.
fn field<'a>(v: &'a Json, key: &str) -> (r: Option<&'a Json>)
    ensures
        match r {
            Some(j) => j@ == field_of(v@, key@),
            None => field_of(v@, key@) == JsonModel::Null,
        },
{
    match v {
        Json::Object(fields) => {
            let ghost m = v@->Object_0;
            let ghost p = has_key(key@);
            let mut i: usize = 0;
            while i < fields.len()
                invariant
                    i <= fields@.len(),
                    v@ == JsonModel::Object(m),
                    m.len() == fields@.len(),
                    forall|j: int|
                        0 <= j < m.len() ==> (#[trigger] m[j]) == (
                            fields@[j].0@,
                            fields@[j].1@,
                        ),
                    p == has_key(key@),
                    forall|j: int| 0 <= j < i ==> !p(#[trigger] m[j]),
                decreases fields@.len() - i,
            {
                assert(m[i as int] == (fields@[i as int].0@, fields@[i as int].1@));
                if same(fields[i].0.as_str(), key) {
                    proof {
                        crate::lists::lemma_first_where_is(m, p, i as int);
                    }
                    return Some(&fields[i].1);
                }
                i = i + 1;
            }
            proof {
                crate::lists::lemma_first_where_is(m, p, i as int);
            }
            None
        },
        _ => None,
    }
}

/// A whole number under `key`, written as a number or as text.
pub fn get_u64(v: &Json, key: &str) -> (r: Option<u64>)
    ensures
        r == u64_of(field_of(v@, key@)),
{
    match field(v, key) {
        Some(Json::Number(n)) => *n,
        Some(Json::Text(s)) => parse_number(trim(s.as_str()), 10, u64::MAX),
        _ => None,
    }
}

/// A port number under `key`.
pub fn get_port(v: &Json, key: &str) -> (r: Option<u16>)
    ensures
        r == port_of(field_of(v@, key@)),
{
    match get_u64(v, key) {
        Some(n) => {
            if 1 <= n && n <= 65535 {
                Some(n as u16)
            } else {
                None
            }
        },
        None => None,
    }
}

/// A flag under `key`.
fn flag(v: &Json, key: &str, otherwise: bool) -> (r: bool)
    ensures
        r == bool_of(field_of(v@, key@), otherwise),
{
    match field(v, key) {
        Some(Json::Bool(b)) => *b,
        _ => otherwise,
    }
}

/// A flag under `key`, false if there is none.
pub fn get_bool(v: &Json, key: &str) -> (r: bool)
    ensures
        r == bool_of(field_of(v@, key@), false),
{
    flag(v, key, false)
}

/// A text under `key`.
fn get_text<'a>(v: &'a Json, key: &str) -> (r: Option<&'a str>)
    ensures
        match r {
            Some(s) => text_of(field_of(v@, key@)) == Some(s@),
            None => text_of(field_of(v@, key@)) is None,
        },
{
    match field(v, key) {
        Some(Json::Text(s)) => Some(s.as_str()),
        _ => None,
    }
}

fn get_label(v: &Json) -> (r: String)
    ensures
        r@ == label_of(field_of(v@, "label"@)),
{
    match get_text(v, "label") {
        Some(s) => trim(s).to_owned(),
        None => String::new(),
    }
}

fn valid_target(t: &str) -> (r: bool)
    ensures
        r == target_ok(t@),
{
    match rsplit_once(t, ':') {
        Some((host, p)) => !host.is_empty() && parse_number(p, 10, 65535).is_some(),
        None => false,
    }
}

fn port_list(items: &Vec<Json>) -> (r: Option<Vec<PortSpec>>)
    ensures
        match r {
            Some(v) => ports_of(models(items@)) == Some(v@),
            None => ports_of(models(items@)) is None,
        },
{
    let ghost all = models(items@);
    let mut r: Vec<PortSpec> = Vec::new();
    let mut i: usize = 0;
    while i < items.len()
        invariant
            i <= items@.len(),
            all == models(items@),
            ports_of(all.take(i as int)) == Some(r@),
        decreases items@.len() - i,
    {
        proof {
            assert(all.take(i + 1).drop_last() =~= all.take(i as int));
            assert(all.take(i + 1).last() == items@[i as int]@);
        }
        match get_port(&items[i], "port") {
            Some(port) => r.push(PortSpec { port, udp: get_bool(&items[i], "udp") }),
            None => {
                proof {
                    lemma_ports_of(all, i + 1);
                }
                return None;
            },
        }
        i = i + 1;
    }
    assert(all.take(i as int) =~= all);
    Some(r)
}

proof fn lemma_ports_of(items: Seq<JsonModel>, n: int)
    requires
        0 <= n <= items.len(),
        ports_of(items.take(n)) is None,
    ensures
        ports_of(items) is None,
    decreases items.len(),
{
    if n == items.len() {
        assert(items.take(n) =~= items);
    } else {
        assert(items.drop_last().take(n) =~= items.take(n));
        lemma_ports_of(items.drop_last(), n);
    }
}

/// The views of a list of values.
pub open spec fn models(v: Seq<Json>) -> Seq<JsonModel> {
    Seq::new(v.len(), |i: int| v[i]@)
}

proof fn lemma_array_view(v: Json)
    requires
        v is Array,
    ensures
        v@ == JsonModel::Array(models(v->Array_0@)),
{
    assert(v@->Array_0 =~= models(v->Array_0@));
}

fn allow_lines(items: &Vec<Json>) -> (r: Vec<String>)
    ensures
        crate::text::texts(r@) == allow_lines_of(models(items@)),
{
    let ghost all = models(items@);
    let mut r: Vec<String> = Vec::new();
    let mut i: usize = 0;
    assert(crate::text::texts(r@) =~= Seq::empty());
    while i < items.len()
        invariant
            i <= items@.len(),
            all == models(items@),
            crate::text::texts(r@) == allow_lines_of(all.take(i as int)),
        decreases items@.len() - i,
    {
        proof {
            assert(all.take(i + 1).drop_last() =~= all.take(i as int));
            assert(all.take(i + 1).last() == items@[i as int]@);
        }
        let ghost had = crate::text::texts(r@);
        match &items[i] {
            Json::Number(Some(n)) => {
                let line = number(*n);
                r.push(line);
                assert(crate::text::texts(r@) =~= had.push(line@));
            },
            Json::Text(s) => {
                let t = trim(s.as_str());
                if !t.is_empty() {
                    let line = t.to_owned();
                    r.push(line);
                    assert(crate::text::texts(r@) =~= had.push(line@));
                }
            },
            _ => {},
        }
        i = i + 1;
    }
    assert(all.take(i as int) =~= all);
    r
}

/// The view of an optional command or of what is wrong.
pub open spec fn result_view(r: Result<Command, &'static str>) -> Result<CommandModel, Seq<char>> {
    match r {
        Ok(c) => Ok(c@),
        Err(e) => Err(e@),
    }
}

fn share_command(v: &Json) -> (r: Result<Command, &'static str>)
    ensures
        result_view(r) == share_of(v@),
{
    let target: Option<String> = match get_text(v, "target") {
        Some(s) => {
            let t = trim(s);
            if t.is_empty() {
                None
            } else if !valid_target(t) {
                return Err("target must be host:port");
            } else {
                Some(t.to_owned())
            }
        },
        None => None,
    };
    match get_port(v, "port") {
        Some(port) => Ok(
            Command::Share { port, udp: get_bool(v, "udp"), target, label: get_label(v) },
        ),
        None => Err("invalid port"),
    }
}

fn connect_command(v: &Json) -> (r: Result<Command, &'static str>)
    ensures
        result_view(r) == connect_of(v@),
{
    let remote_port: u16 = match get_port(v, "remote_port") {
        Some(p) => p,
        None => return Err("invalid remote port"),
    };
    let peer: u64 = match get_u64(v, "peer") {
        Some(p) => p,
        None => return Err("invalid steam id"),
    };
    let local_port: u16 = match get_port(v, "local_port") {
        Some(p) => p,
        None => remote_port,
    };
    Ok(Command::Connect { peer, remote_port, local_port, udp: get_bool(v, "udp") })
}

fn invite_command(v: &Json) -> (r: Result<Command, &'static str>)
    ensures
        result_view(r) == invite_of(v@),
{
    let ports: Vec<PortSpec> = match field(v, "ports") {
        Some(Json::Array(items)) => {
            proof {
                lemma_array_view(Json::Array(*items));
            }
            match port_list(items) {
                Some(ports) => ports,
                None => return Err("invalid port in ports"),
            }
        },
        _ => {
            match get_port(v, "port") {
                Some(port) => {
                    let mut ports: Vec<PortSpec> = Vec::new();
                    ports.push(PortSpec { port, udp: get_bool(v, "udp") });
                    assert(ports@ =~= seq![ports@[0]]);
                    ports
                },
                None => return Err("invalid port"),
            }
        },
    };
    match get_u64(v, "peer") {
        Some(peer) => Ok(Command::Invite { peer, ports, label: get_label(v) }),
        None => Err("invalid steam id"),
    }
}

fn settings_command(v: &Json) -> (r: Command)
    ensures
        r@ == settings_of(v@),
{
    let psk: Option<String> = if get_bool(v, "clear_psk") {
        Some(String::new())
    } else {
        match get_text(v, "psk") {
            Some(s) => {
                if s.is_empty() {
                    None
                } else {
                    Some(s.to_owned())
                }
            },
            None => None,
        }
    };
    let allowlist: Vec<String> = match field(v, "allowlist") {
        Some(Json::Array(items)) => {
            proof {
                lemma_array_view(Json::Array(*items));
            }
            allow_lines(items)
        },
        _ => Vec::new(),
    };
    assert(crate::text::texts(allowlist@) =~= allowlist_of(field_of(v@, "allowlist"@)));
    let send_rate_kib: u32 = match get_u64(v, "send_rate_kib") {
        Some(n) => {
            if n > u32::MAX as u64 {
                u32::MAX
            } else {
                n as u32
            }
        },
        None => 0,
    };
    Command::SetSettings {
        psk,
        allowlist,
        send_rate_kib,
        notify_events: flag(v, "notify_events", true),
        notify_idle_shares: flag(v, "notify_idle_shares", true),
    }
}

/// The command that a posted value gives on a path, or what is wrong with it.
pub fn read_command(path: &str, v: &Json) -> (r: Result<Command, &'static str>)
    ensures
        result_view(r) == command_of(path@, v@),
{
    if same(path, "/api/share") {
        share_command(v)
    } else if same(path, "/api/unshare") {
        match get_port(v, "port") {
            Some(port) => Ok(Command::Unshare { port, udp: get_bool(v, "udp") }),
            None => Err("invalid port"),
        }
    } else if same(path, "/api/connect") {
        connect_command(v)
    } else if same(path, "/api/stop_mapping") {
        match get_u64(v, "id") {
            Some(id) => Ok(Command::StopMapping { id }),
            None => Err("invalid id"),
        }
    } else if same(path, "/api/invite") {
        invite_command(v)
    } else if same(path, "/api/dismiss_invite") {
        match get_u64(v, "id") {
            Some(id) => Ok(Command::DismissInvite { id }),
            None => Err("invalid id"),
        }
    } else if same(path, "/api/settings") {
        Ok(settings_command(v))
    } else {
        Err("unknown endpoint")
    }
}

/// Takes a posted value: queues its command, or tells what is wrong with it.
pub fn handle_post(shared: &mut SharedInner, path: &str, v: &Json) -> (r: Result<(), &'static str>)
    ensures
        match command_of(path@, v@) {
            Ok(cmd) => r is Ok && final(shared)@ == old(shared)@.with_command(cmd),
            Err(e) => r matches Err(m) && m@ == e && final(shared)@ == old(shared)@,
        },
{
    match read_command(path, v) {
        Ok(cmd) => {
            shared.push_command(cmd);
            Ok(())
        },
        Err(e) => Err(e),
    }
}

/// How a request asks.
#[derive(Clone, Copy, PartialEq, Eq, Structural, Debug)]
pub enum Method {
    Get,
    Post,
    Other,
}

/// A request header as a value.
#[verifier::ext_equal]
pub struct HeaderModel {
    pub name: Seq<char>,
    pub value: Seq<char>,
}

pub struct Header {
    pub name: String,
    pub value: String,
}

impl View for Header {
    type V = HeaderModel;

    open spec fn view(&self) -> HeaderModel {
        HeaderModel { name: self.name@, value: self.value@ }
    }
}

pub open spec fn header_models(v: Seq<Header>) -> Seq<HeaderModel> {
    v.map_values(|h: Header| h@)
}

/// Headers of a name, up to the case of its letters.
pub open spec fn named(name: Seq<char>) -> spec_fn(HeaderModel) -> bool {
    |h: HeaderModel| crate::text::same_ignoring_case(h.name, name)
}

/// The ending that names the web page's port.
pub open spec fn port_suffix(port: u16) -> Seq<char> {
    ":"@ + crate::text::decimal(port as nat)
}

/// Whether a host names this machine, with or without the web page's port.
pub open spec fn local_host(value: Seq<char>, port: u16) -> bool {
    let v = crate::text::trimmed(value);
    let bare = match crate::text::without_suffix(v, port_suffix(port)) {
        Some(b) => b,
        None => v,
    };
    bare == "127.0.0.1"@ || bare == "localhost"@ || bare == "[::1]"@
}

/// Whether the first `Host` header names this machine.
pub open spec fn host_accepted(headers: Seq<HeaderModel>, port: u16) -> bool {
    match crate::lists::first_where(headers, named("Host"@)) {
        Some(i) => local_host(headers[i].value, port),
        None => false,
    }
}

/// Whether a request carries the header that pages of other origins cannot
/// send without asking first.
pub open spec fn marked(headers: Seq<HeaderModel>) -> bool {
    crate::lists::first_where(headers, named("X-ST"@)) is Some
}

/// The position of the first header of a name.
fn find_header(headers: &Vec<Header>, name: &str) -> (r: Option<usize>)
    ensures
        match r {
            Some(i) => i < headers@.len() && crate::lists::first_where(
                header_models(headers@),
                named(name@),
            ) == Some(i as int),
            None => crate::lists::first_where(header_models(headers@), named(name@)) is None,
        },
{
    let ghost m = header_models(headers@);
    let ghost p = named(name@);
    let mut i: usize = 0;
    while i < headers.len()
        invariant
            i <= headers@.len(),
            m == header_models(headers@),
            p == named(name@),
            forall|j: int| 0 <= j < i ==> !p(#[trigger] m[j]),
        decreases headers@.len() - i,
    {
        assert(m[i as int] == headers@[i as int]@);
        if equal_ignoring_case(headers[i].name.as_str(), name) {
            proof {
                crate::lists::lemma_first_where_is(m, p, i as int);
            }
            return Some(i);
        }
        i = i + 1;
    }
    proof {
        crate::lists::lemma_first_where_is(m, p, i as int);
    }
    None
}

/// Whether the request is for this machine: a page can point a name of its
/// own here, and would otherwise read the answers.
pub fn host_ok(headers: &Vec<Header>, port: u16) -> (r: bool)
    ensures
        r == host_accepted(header_models(headers@), port),
{
    match find_header(headers, "Host") {
        Some(i) => {
            let v = trim(headers[i].value.as_str());
            let mut suffix = ":".to_owned();
            let digits = number(port as u64);
            suffix.append(digits.as_str());
            let bare = match strip_suffix(v, suffix.as_str()) {
                Some(b) => b,
                None => v,
            };
            same(bare, "127.0.0.1") || same(bare, "localhost") || same(bare, "[::1]")
        },
        None => false,
    }
}

/// Whether the request carries the marking header.
pub fn xst_ok(headers: &Vec<Header>) -> (r: bool)
    ensures
        r == marked(header_models(headers@)),
{
    find_header(headers, "X-ST").is_some()
}

/// An answer as a value.
#[verifier::ext_equal]
pub enum ReplyModel {
    /// The web page.
    Index,
    /// The snapshot, as JSON.
    State,
    /// A status and a JSON body.
    Json { status: u16, body: Seq<char> },
    NotFound,
}

/// An answer.
pub enum Reply {
    /// The web page.
    Index,
    /// The snapshot, as JSON.
    State,
    /// A status and a JSON body.
    Json { status: u16, body: String },
    NotFound,
}

impl View for Reply {
    type V = ReplyModel;

    open spec fn view(&self) -> ReplyModel {
        match *self {
            Reply::Index => ReplyModel::Index,
            Reply::State => ReplyModel::State,
            Reply::Json { status, body } => ReplyModel::Json { status, body: body@ },
            Reply::NotFound => ReplyModel::NotFound,
        }
    }
}

/// The body that tells what is wrong.
pub open spec fn error_body(message: Seq<char>) -> Seq<char> {
    "{\"ok\":false,\"error\":\""@ + message + "\"}"@
}

/// A request as a value.
#[verifier::ext_equal]
pub struct RequestModel {
    pub method: Method,
    pub url: Seq<char>,
    pub headers: Seq<HeaderModel>,
}

/// The command that a request gives, its body being read as `v`, if it gives
/// one: only a marked post to this machine does.
pub open spec fn accepted_command(req: RequestModel, v: JsonModel, port: u16) -> Option<
    CommandModel,
> {
    if host_accepted(req.headers, port) && req.method == Method::Post && marked(req.headers) {
        match command_of(req.url, v) {
            Ok(cmd) => Some(cmd),
            Err(_) => None,
        }
    } else {
        None
    }
}

/// The answer to a request, its body being read as `v`.
pub open spec fn reply_to(req: RequestModel, v: JsonModel, port: u16) -> ReplyModel {
    if !host_accepted(req.headers, port) {
        ReplyModel::Json { status: 403, body: error_body("bad host"@) }
    } else if req.method == Method::Post {
        if !marked(req.headers) {
            ReplyModel::Json { status: 403, body: error_body("missing X-ST header"@) }
        } else {
            match command_of(req.url, v) {
                Ok(_) => ReplyModel::Json { status: 200, body: "{\"ok\":true}"@ },
                Err(e) => ReplyModel::Json { status: 400, body: error_body(e) },
            }
        }
    } else if req.method == Method::Get && req.url == "/"@ {
        ReplyModel::Index
    } else if req.method == Method::Get && req.url == "/api/state"@ {
        ReplyModel::State
    } else {
        ReplyModel::NotFound
    }
}

fn error_reply(status: u16, message: &str) -> (r: Reply)
    ensures
        r@ == (ReplyModel::Json { status, body: error_body(message@) }),
{
    let mut body = "{\"ok\":false,\"error\":\"".to_owned();
    body.append(message);
    body.append("\"}");
    Reply::Json { status, body }
}

/// Answers a request whose body has been read.
pub fn answer(
    shared: &mut SharedInner,
    method: Method,
    url: &str,
    headers: &Vec<Header>,
    v: &Json,
    port: u16,
) -> (r: Reply)
    ensures
        ({
            let req = RequestModel { method, url: url@, headers: header_models(headers@) };
            &&& r@ == reply_to(req, v@, port)
            &&& match accepted_command(req, v@, port) {
                Some(cmd) => final(shared)@ == old(shared)@.with_command(cmd),
                None => final(shared)@ == old(shared)@,
            }
        }),
{
    if !host_ok(headers, port) {
        error_reply(403, "bad host")
    } else {
        match method {
            Method::Post => {
                if !xst_ok(headers) {
                    error_reply(403, "missing X-ST header")
                } else {
                    match handle_post(shared, url, v) {
                        Ok(_) => Reply::Json { status: 200, body: "{\"ok\":true}".to_owned() },
                        Err(e) => error_reply(400, e),
                    }
                }
            },
            Method::Get => {
                if same(url, "/") {
                    Reply::Index
                } else if same(url, "/api/state") {
                    Reply::State
                } else {
                    Reply::NotFound
                }
            },
            Method::Other => Reply::NotFound,
        }
    }
}

/// Answers a request.
pub fn handle(
    shared: &mut SharedInner,
    method: Method,
    url: &str,
    headers: &Vec<Header>,
    body: &str,
    port: u16,
) -> (r: Reply)
    ensures
        ({
            let req = RequestModel { method, url: url@, headers: header_models(headers@) };
            let v = crate::json::body_contents(body@);
            &&& r@ == reply_to(req, v, port)
            &&& match accepted_command(req, v, port) {
                Some(cmd) => final(shared)@ == old(shared)@.with_command(cmd),
                None => final(shared)@ == old(shared)@,
            }
        }),
{
    let v = parse_body(body);
    answer(shared, method, url, headers, &v, port)
}

/// A request under another host name, or one without a `Host` header, is
/// refused and gives no command; nor does a post without the marking header.
pub proof fn law_guards(req: RequestModel, v: JsonModel, port: u16)
    ensures
        !host_accepted(req.headers, port) ==> accepted_command(req, v, port) is None && reply_to(
            req,
            v,
            port,
        ) == (ReplyModel::Json { status: 403, body: error_body("bad host"@) }),
        host_accepted(req.headers, port) && req.method == Method::Post && !marked(req.headers)
            ==> accepted_command(req, v, port) is None && reply_to(req, v, port) == (
        ReplyModel::Json { status: 403, body: error_body("missing X-ST header"@) }),
        req.method != Method::Post ==> accepted_command(req, v, port) is None,
{
}

/// A name for this machine is accepted bare and with the web page's port.
pub proof fn law_local_names(port: u16)
    ensures
        forall|name: Seq<char>|
            name == "127.0.0.1"@ || name == "localhost"@ || name == "[::1]"@ ==> (
            #[trigger] local_host(name + port_suffix(port), port)),
{
    assert forall|name: Seq<char>|
        name == "127.0.0.1"@ || name == "localhost"@ || name == "[::1]"@ implies (
    #[trigger] local_host(name + port_suffix(port), port)) by {
        reveal_strlit("127.0.0.1");
        reveal_strlit("localhost");
        reveal_strlit("[::1]");
        reveal_strlit(":");
        let d = crate::text::decimal(port as nat);
        crate::text::lemma_decimal_digits(port as nat);
        let s = name + port_suffix(port);
        assert(crate::text::is_digit(d[d.len() - 1], 10));
        assert(s.last() == d[d.len() - 1]);
        assert(s[0] == name[0]);
        assert(crate::text::trimmed(s) == s);
        assert(s.skip(s.len() - port_suffix(port).len()) =~= port_suffix(port));
        assert(s.take(s.len() - port_suffix(port).len()) =~= name);
    }
}

/// A command for a port is only ever given with a port from 1 to 65535.
pub proof fn law_ports_in_range(path: Seq<char>, v: JsonModel)
    ensures
        match command_of(path, v) {
            Ok(CommandModel::Share { port, udp, target, label }) => port >= 1 && (
            target matches Some(t) ==> target_ok(t)),
            Ok(CommandModel::Unshare { port, udp }) => port >= 1,
            Ok(CommandModel::Connect { peer, remote_port, local_port, udp }) => remote_port >= 1
                && local_port >= 1,
            Ok(CommandModel::Invite { peer, ports, label }) => forall|i: int|
                0 <= i < ports.len() ==> (#[trigger] ports[i]).port >= 1,
            _ => true,
        },
{
    if let JsonModel::Array(items) = field_of(v, "ports"@) {
        lemma_ports_positive(items);
    }
}

proof fn lemma_ports_positive(items: Seq<JsonModel>)
    ensures
        ports_of(items) matches Some(ports) ==> forall|i: int|
            0 <= i < ports.len() ==> (#[trigger] ports[i]).port >= 1,
    decreases items.len(),
{
    if items.len() > 0 {
        lemma_ports_positive(items.drop_last());
    }
}

/// Settings that name no key, or an empty one, keep the key; only an explicit
/// wish clears it, whatever else they name.
pub proof fn law_key_kept(v: JsonModel)
    ensures
        !bool_of(field_of(v, "clear_psk"@), false) && text_of(field_of(v, "psk"@)) is None
            ==> psk_of(v) is None,
        !bool_of(field_of(v, "clear_psk"@), false) && text_of(field_of(v, "psk"@)) == Some(
            Seq::<char>::empty(),
        ) ==> psk_of(v) is None,
        bool_of(field_of(v, "clear_psk"@), false) <==> psk_of(v) == Some(Seq::<char>::empty()),
{
    if let Some(s) = text_of(field_of(v, "psk"@)) {
        if s.len() == 0 {
            assert(s =~= Seq::empty());
        }
    }
}

} // verus!
