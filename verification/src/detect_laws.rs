//! How the system's tables and links are read, and how a listing is ordered.
use vstd::prelude::*;

use crate::detect::{AppModel, ScanModel};

verus! {

/// A line of a socket table gives a socket that waits for peers: the inode of
/// its tenth column, and the port behind the last colon of its second one, in
/// hexadecimal. It waits in state `0A` for TCP and in state `07` for UDP.
pub proof fn law_table_row(
    line: Seq<char>,
    cols: Seq<Seq<char>>,
    host: Seq<char>,
    a: int,
    b: int,
    c: int,
    d: int,
    inode: u64,
    udp: bool,
)
    requires
        crate::text::words_of(line) == cols,
        cols.len() >= 10,
        0 <= a < 16,
        0 <= b < 16,
        0 <= c < 16,
        0 <= d < 16,
        cols[1] == host + seq![':'] + seq![
            crate::text_laws::hex_char(a),
            crate::text_laws::hex_char(b),
            crate::text_laws::hex_char(c),
            crate::text_laws::hex_char(d),
        ],
        cols[9] == crate::text::decimal(inode as nat),
    ensures
        ({
            let port = a * 4096 + b * 256 + c * 16 + d;
            let waits = cols[3] == if udp {
                "07"@
            } else {
                "0A"@
            };
            &&& waits && port > 0 && inode > 0 ==> crate::detect::row_of(line, udp) == Some(
                (inode, port as u16),
            )
            &&& !waits || port == 0 || inode == 0 ==> crate::detect::row_of(line, udp) is None
        }),
{
    let hex = seq![
        crate::text_laws::hex_char(a),
        crate::text_laws::hex_char(b),
        crate::text_laws::hex_char(c),
        crate::text_laws::hex_char(d),
    ];
    assert(!hex.contains(':')) by {
        if hex.contains(':') {
            let i = choose|i: int| 0 <= i < hex.len() && hex[i] == ':';
            assert(i == 0 || i == 1 || i == 2 || i == 3);
        }
    }
    crate::text_laws::law_split(host, ':', hex);
    crate::text_laws::law_hex(a, b, c, d);
    crate::text::law_number_round_trip(inode as nat, u64::MAX as nat);
}

/// A line with fewer columns gives nothing.
pub proof fn law_short_row(line: Seq<char>, udp: bool)
    requires
        crate::text::words_of(line).len() < 10,
    ensures
        crate::detect::row_of(line, udp) is None,
{
}

/// The first line of a table is its heading, and every other line is a row.
pub proof fn law_table_heading(head: Seq<char>, rest: Seq<char>)
    requires
        crate::text_laws::is_one_line(head),
        head.len() > 0 ==> head.last() != '\r',
    ensures
        crate::detect::rows_of(head + seq!['\n'] + rest) == crate::text::lines_of(rest),
        crate::detect::rows_of(Seq::empty()).len() == 0,
{
    crate::text_laws::law_lines(head, rest);
    assert((seq![head] + crate::text::lines_of(rest)).skip(1) =~= crate::text::lines_of(rest));
}

/// A link names a socket if and only if it is the word `socket` with the number
/// of the socket in brackets behind a colon.
pub proof fn law_link(n: u64, link: Seq<char>)
    ensures
        crate::detect::linked_inode(
            "socket:["@ + crate::text::decimal(n as nat) + "]"@,
        ) == Some(n as int),
        crate::detect::linked_inode(link) is Some ==> exists|mid: Seq<char>|
            link == #[trigger] ("socket:["@ + mid + "]"@),
{
    let d = crate::text::decimal(n as nat);
    let rest = d + "]"@;
    crate::text_laws::law_affixes("socket:["@, rest);
    crate::text_laws::law_affixes(d, "]"@);
    assert("socket:["@ + d + "]"@ =~= "socket:["@ + rest);
    crate::text::law_number_round_trip(n as nat, u64::MAX as nat);
    crate::text_laws::law_affixes(link, "socket:["@);
    if let Some(r) = crate::text::without_prefix(link, "socket:["@) {
        crate::text_laws::law_affixes(r, "]"@);
        if let Some(mid) = crate::text::without_suffix(r, "]"@) {
            assert(link =~= "socket:["@ + mid + "]"@);
        }
    }
}

/// A directory is another process's if and only if its name is a number other
/// than this one's.
pub proof fn law_foreign(pid: u64, me: u64, name: Seq<char>, i: int)
    ensures
        crate::detect::is_foreign(crate::text::decimal(pid as nat), me) <==> pid != me,
        0 <= i < name.len() && !crate::text::is_digit(name[i], 10) && name[0] != '+'
            ==> !crate::detect::is_foreign(name, me),
{
    crate::text::law_number_round_trip(pid as nat, u64::MAX as nat);
    crate::text_laws::law_no_number(name, 10, u64::MAX as int, i);
}

/// A listing is sorted by program, then by port, then TCP before UDP, and has
/// nothing twice.
pub proof fn law_listing_sorted(s: Seq<AppModel>, i: int, j: int)
    requires
        crate::detect::strictly_listed(s),
        0 <= i < j < s.len(),
    ensures
        s[i] != s[j],
        crate::text::text_le(s[i].process, s[j].process),
        s[i].process == s[j].process ==> s[i].port <= s[j].port,
        s[i].process == s[j].process && s[i].port == s[j].port ==> !s[i].udp && s[j].udp,
{
    crate::text::lemma_text_le_total(s[i].process, s[j].process);
    assert(crate::detect::app_le(s[i], s[j]));
    if s[i].process == s[j].process && s[i].port == s[j].port && s[i].udp == s[j].udp {
        assert(s[i] == s[j]);
    }
}


/// Reading a table with one row adds the socket of that row, under its port and
/// protocol, and nothing else changes.
pub proof fn law_row_read(
    s: ScanModel,
    head: Seq<char>,
    line: Seq<char>,
    udp: bool,
    n: u64,
    port: u16,
)
    requires
        crate::text_laws::is_one_line(head),
        head.len() > 0 ==> head.last() != '\r',
        crate::text_laws::is_one_line(line),
        line.len() > 0,
        line.last() != '\r',
        crate::detect::row_of(line, udp) == Some((n, port)),
    ensures
        s.read(head + seq!['\n'] + line, udp) == (ScanModel {
            sockets: s.sockets.insert(n, (port, udp)),
            ..s
        }),
{
    law_table_heading(head, line);
    crate::text_laws::law_lines(line, Seq::empty());
    let rows = seq![line];
    assert(rows.drop_last() =~= Seq::empty());
    assert(rows.last() == line);
    assert(crate::detect::with_rows(s.sockets, Seq::empty(), udp) == s.sockets);
}

/// A link is worth looking into if and only if it names a socket of the tables
/// whose owner is not known; once its owner is taken down it is not any more,
/// and the owner is listed last, under the name without white space around it,
/// with the port and protocol of the socket.
pub proof fn law_owner_taken(s: ScanModel, n: u64, comm: Seq<char>)
    ensures
        ({
            let link = "socket:["@ + crate::text::decimal(n as nat) + "]"@;
            let c = s.claimed(link, comm);
            &&& s.wants(link) <==> s.sockets.contains_key(n) && !s.seen.contains(n)
            &&& s.wants(link) ==> !c.wants(link) && c.found.drop_last() == s.found
                && c.found.last() == (AppModel {
                process: crate::text::trimmed(comm),
                port: s.sockets[n].0,
                udp: s.sockets[n].1,
            }) && c.sockets == s.sockets
            &&& !s.wants(link) ==> c == s
            &&& !s.disowned(link).sockets.contains_key(n)
        }),
{
    let link = "socket:["@ + crate::text::decimal(n as nat) + "]"@;
    law_link(n, link);
    let c = s.claimed(link, comm);
    if s.wants(link) {
        assert(c.found.drop_last() =~= s.found);
    }
}


/// A listing has everything that was found on a port from 1024 on, whatever the
/// protocol and whoever owns it, and nothing else, sorted and without doubles.
pub proof fn law_listing(found: Seq<AppModel>, r: Seq<AppModel>, a: AppModel, i: int, j: int)
    requires
        crate::detect::is_listing(found, r),
    ensures
        found.contains(a) && a.port >= 1024 ==> r.contains(a),
        r.contains(a) ==> found.contains(a) && a.port >= 1024,
        0 <= i < j < r.len() ==> r[i] != r[j] && crate::text::text_le(r[i].process, r[j].process)
            && (r[i].process == r[j].process ==> r[i].port <= r[j].port),
{
    if 0 <= i < j < r.len() {
        law_listing_sorted(r, i, j);
    }
}

/// What a search gives starts with what was found, in that order, and tells of
/// every waiting socket once, with its port and protocol; the rest is nameless.
pub proof fn law_search_gives(s: ScanModel, apps: Seq<AppModel>, k: int)
    requires
        s.accounted(),
        s.gives(apps),
    ensures
        apps.len() == s.sockets.dom().len(),
        s.found.is_prefix_of(apps),
        exists|all: Seq<u64>| #[trigger] s.tells_of(apps, all) && all.to_set() == s.sockets.dom(),
        s.found.len() <= k < apps.len() ==> apps[k].process.len() == 0,
{
    let ns = choose|ns: Seq<u64>| #[trigger]
        s.lists_unseen(ns) && apps == s.with_nameless(ns);
    crate::detect::law_every_socket_once(s, ns);
    assert(s.found.is_prefix_of(apps));
}

} // verus!
