//! Programs that listen on local ports, from what the system tells of its
//! sockets and their owners.
use std::collections::{HashMap, HashSet};
use vstd::prelude::*;
use vstd::string::*;

use crate::text::{lines, ordered, parse_number, rsplit_once, same, strip_prefix, strip_suffix, trim, words};

verus! {

/// Ports below this one belong to the system.
pub const FIRST_PORT: u16 = 1024;

/// A listening socket as a value.
#[verifier::ext_equal]
pub struct AppModel {
    pub process: Seq<char>,
    pub port: u16,
    pub udp: bool,
}

/// A listening socket: its program, its port and its protocol.
#[derive(Clone, Debug, PartialEq)]
pub struct AppPort {
    pub process: String,
    pub port: u16,
    pub udp: bool,
}

impl View for AppPort {
    type V = AppModel;

    open spec fn view(&self) -> AppModel {
        AppModel { process: self.process@, port: self.port, udp: self.udp }
    }
}

pub open spec fn app_models(v: Seq<AppPort>) -> Seq<AppModel> {
    v.map_values(|a: AppPort| a@)
}

/// The order of a listing: by program, then by port, TCP before UDP.
pub open spec fn app_le(a: AppModel, b: AppModel) -> bool {
    if a.process != b.process {
        crate::text::text_le(a.process, b.process)
    } else if a.port != b.port {
        a.port < b.port
    } else {
        !a.udp || b.udp
    }
}

/// In order, and nothing twice.
pub open spec fn strictly_listed(s: Seq<AppModel>) -> bool {
    forall|i: int, j: int|
        0 <= i < j < s.len() ==> app_le(#[trigger] s[i], #[trigger] s[j]) && s[i] != s[j]
}

proof fn lemma_app_order()
    ensures
        crate::lists::is_order(|a: AppModel, b: AppModel| app_le(a, b)),
        forall|a: AppModel, b: AppModel| #[trigger] app_le(a, b) && app_le(b, a) ==> a == b,
        forall|a: AppModel, b: AppModel| #[trigger] app_le(a, b) || app_le(b, a),
        forall|a: AppModel, b: AppModel, c: AppModel| #[trigger]
            app_le(a, b) && #[trigger] app_le(b, c) ==> app_le(a, c),
{
    assert forall|a: AppModel, b: AppModel| #[trigger] app_le(a, b) || app_le(b, a) by {
        crate::text::lemma_text_le_total(a.process, b.process);
    }
    assert forall|a: AppModel, b: AppModel| #[trigger] app_le(a, b) && app_le(b, a) implies a
        == b by {
        crate::text::lemma_text_le_total(a.process, b.process);
    }
    assert forall|a: AppModel, b: AppModel, c: AppModel| #[trigger]
        app_le(a, b) && #[trigger] app_le(b, c) implies app_le(a, c) by {
        if a.process != b.process && b.process != c.process {
            crate::text::lemma_text_le_transitive(a.process, b.process, c.process);
            crate::text::lemma_text_le_total(a.process, b.process);
        }
    }
}

fn app_ordered(a: &AppPort, b: &AppPort) -> (r: bool)
    ensures
        r == app_le(a@, b@),
{
    if !same(a.process.as_str(), b.process.as_str()) {
        ordered(a.process.as_str(), b.process.as_str())
    } else if a.port != b.port {
        a.port < b.port
    } else {
        !a.udp || b.udp
    }
}

fn app_same(a: &AppPort, b: &AppPort) -> (r: bool)
    ensures
        r == (a@ == b@),
{
    same(a.process.as_str(), b.process.as_str()) && a.port == b.port && a.udp == b.udp
}

proof fn lemma_push_contains(s: Seq<AppModel>, a: AppModel, x: AppModel)
    ensures
        s.push(a).contains(x) <==> s.contains(x) || x == a,
{
    let t = s.push(a);
    if t.contains(x) {
        let i = choose|i: int| 0 <= i < t.len() && t[i] == x;
        if i < s.len() {
            assert(s[i] == x);
        }
    }
    if s.contains(x) {
        let i = choose|i: int| 0 <= i < s.len() && s[i] == x;
        assert(t[i] == x);
    }
    if x == a {
        assert(t[s.len() as int] == x);
    }
}

/// Puts a socket in its place in a listing, unless it is there already.
fn enlist(out: &mut Vec<AppPort>, a: AppPort)
    requires
        strictly_listed(app_models(old(out)@)),
    ensures
        strictly_listed(app_models(final(out)@)),
        forall|x: AppModel| #[trigger]
            app_models(final(out)@).contains(x) <==> app_models(old(out)@).contains(x) || x == a@,
{
    let ghost was = app_models(out@);
    let mut at: usize = 0;
    while at < out.len() && app_ordered(&out[at], &a)
        invariant
            at <= out@.len(),
            was == app_models(out@),
            strictly_listed(was),
            forall|i: int| 0 <= i < at ==> app_le(#[trigger] was[i], a@) && was[i] != a@,
        decreases out@.len() - at,
    {
        assert(was[at as int] == out@[at as int]@);
        if app_same(&out[at], &a) {
            assert(was.contains(a@));
            return;
        }
        at = at + 1;
    }
    out.insert(at, a);
    let ghost now = app_models(out@);
    proof {
        lemma_app_order();
        assert(now =~= was.insert(at as int, a@));
        assert forall|i: int, j: int| 0 <= i < j < now.len() implies app_le(
            #[trigger] now[i],
            #[trigger] now[j],
        ) && now[i] != now[j] by {
            let i0 = if i < at {
                i
            } else {
                i - 1
            };
            let j0 = if j < at {
                j
            } else {
                j - 1
            };
            if i == at {
                assert(now[j] == was[j0]);
                assert(app_le(a@, was[at as int]));
                if j0 > at {
                    assert(app_le(was[at as int], was[j0]));
                    assert(was[at as int] != was[j0]);
                }
            } else if j == at {
                assert(now[i] == was[i0]);
            } else {
                assert(now[i] == was[i0] && now[j] == was[j0]);
            }
        }
        assert forall|x: AppModel| #[trigger] now.contains(x) <==> was.contains(x) || x == a@ by {
            if was.contains(x) {
                let k = choose|k: int| 0 <= k < was.len() && was[k] == x;
                if k < at {
                    assert(now[k] == x);
                } else {
                    assert(now[k + 1] == x);
                }
            }
            if x == a@ {
                assert(now[at as int] == x);
            }
            if now.contains(x) {
                let k = choose|k: int| 0 <= k < now.len() && now[k] == x;
                if k < at {
                    assert(was[k] == x);
                } else if k > at {
                    assert(was[k - 1] == x);
                }
            }
        }
    }
}

/// Whether `r` lists what was found: without the system's ports, in order, and
/// each one once.
pub open spec fn is_listing(found: Seq<AppModel>, r: Seq<AppModel>) -> bool {
    &&& strictly_listed(r)
    &&& forall|a: AppModel| #[trigger]
        r.contains(a) <==> found.contains(a) && a.port >= FIRST_PORT
}

/// The listing of the sockets found: without the system's ports, sorted by
/// program, port and protocol, and each one once.
pub fn listening_ports(found: Vec<AppPort>) -> (r: Vec<AppPort>)
    ensures
        is_listing(app_models(found@), app_models(r@)),
{
    let mut out: Vec<AppPort> = Vec::new();
    let ghost all = app_models(found@);
    for a in it: found
        invariant
            it.seq() == found@,
            all == app_models(found@),
            strictly_listed(app_models(out@)),
            forall|x: AppModel| #[trigger]
                app_models(out@).contains(x) <==> all.take(it.index() as int).contains(x)
                    && x.port >= FIRST_PORT,
    {
        let ghost k = it.index() as int;
        let ghost had = app_models(out@);
        let ghost x0 = a@;
        assert(all[k] == x0);
        if a.port >= FIRST_PORT {
            enlist(&mut out, a);
        }
        let ghost prev = all.take(k);
        let ghost next = all.take(k + 1);
        assert(next =~= prev.push(x0));
        assert forall|x: AppModel| #[trigger] app_models(out@).contains(x) <==> next.contains(x)
            && x.port >= FIRST_PORT by {
            lemma_push_contains(prev, x0, x);
            assert(had.contains(x) <==> prev.contains(x) && x.port >= FIRST_PORT);
        }
    }
    assert(all.take(all.len() as int) =~= all);
    out
}

/// The state in which a socket waits for peers: listening for TCP,
/// unconnected for UDP.
pub open spec fn waiting_state(udp: bool) -> Seq<char> {
    if udp {
        "07"@
    } else {
        "0A"@
    }
}

/// The inode and the port of a waiting socket, from a line of the system's
/// socket table.
pub open spec fn row_of(line: Seq<char>, udp: bool) -> Option<(u64, u16)> {
    let cols = crate::text::words_of(line);
    if cols.len() < 10 || cols[3] != waiting_state(udp) {
        None
    } else {
        match crate::text::split_at_last(cols[1], ':') {
            None => None,
            Some((_, hex)) => match (
                crate::text::parsed_number(hex, 16, u16::MAX as int),
                crate::text::parsed_number(cols[9], 10, u64::MAX as int),
            ) {
                (Some(port), Some(inode)) => if port > 0 && inode > 0 {
                    Some((inode as u64, port as u16))
                } else {
                    None
                },
                _ => None,
            },
        }
    }
}

/// A table of sockets by inode, with the waiting sockets of some lines added.
pub open spec fn with_rows(
    m: Map<u64, (u16, bool)>,
    rows: Seq<Seq<char>>,
    udp: bool,
) -> Map<u64, (u16, bool)>
    decreases rows.len(),
{
    if rows.len() == 0 {
        m
    } else {
        let before = with_rows(m, rows.drop_last(), udp);
        match row_of(rows.last(), udp) {
            Some((inode, port)) => before.insert(inode, (port, udp)),
            None => before,
        }
    }
}

/// The lines of a table without its heading.
pub open spec fn rows_of(data: Seq<char>) -> Seq<Seq<char>> {
    let all = crate::text::lines_of(data);
    if all.len() == 0 {
        all
    } else {
        all.skip(1)
    }
}

/// The inode of the socket that a link of an open file names, if it does.
pub open spec fn linked_inode(link: Seq<char>) -> Option<int> {
    match crate::text::without_prefix(link, "socket:["@) {
        Some(rest) => match crate::text::without_suffix(rest, "]"@) {
            Some(n) => crate::text::parsed_number(n, 10, u64::MAX as int),
            None => None,
        },
        None => None,
    }
}

/// A search for listening programs, as a value.
#[verifier::ext_equal]
pub struct ScanModel {
    /// The waiting sockets by inode.
    pub sockets: Map<u64, (u16, bool)>,
    /// The inodes whose owner was found.
    pub seen: Set<u64>,
    pub found: Seq<AppModel>,
}

impl ScanModel {
    /// Before anything is known.
    pub open spec fn fresh() -> ScanModel {
        ScanModel { sockets: Map::empty(), seen: Set::empty(), found: Seq::empty() }
    }

    /// With a table read.
    pub open spec fn read(self, data: Seq<char>, udp: bool) -> ScanModel {
        ScanModel { sockets: with_rows(self.sockets, rows_of(data), udp), ..self }
    }

    /// Without a socket of this program.
    pub open spec fn disowned(self, link: Seq<char>) -> ScanModel {
        match linked_inode(link) {
            Some(n) => ScanModel { sockets: self.sockets.remove(n as u64), ..self },
            None => self,
        }
    }

    /// Whether a link names a socket whose owner is not known yet.
    pub open spec fn wants(self, link: Seq<char>) -> bool {
        linked_inode(link) matches Some(n) && self.sockets.contains_key(n as u64)
            && !self.seen.contains(n as u64)
    }

    /// With the owner of a socket known.
    pub open spec fn claimed(self, link: Seq<char>, comm: Seq<char>) -> ScanModel {
        if self.wants(link) {
            let n = linked_inode(link)->0 as u64;
            let (port, udp) = self.sockets[n];
            ScanModel {
                seen: self.seen.insert(n),
                found: self.found.push(
                    AppModel { process: crate::text::trimmed(comm), port, udp },
                ),
                ..self
            }
        } else {
            self
        }
    }

    /// What is known of a socket whose owner stayed unknown.
    pub open spec fn nameless(self, n: u64) -> AppModel {
        AppModel { process: Seq::empty(), port: self.sockets[n].0, udp: self.sockets[n].1 }
    }

    /// Whether `ns` has each socket whose owner is not known, once.
    pub open spec fn lists_unseen(self, ns: Seq<u64>) -> bool {
        &&& ns.no_duplicates()
        &&& forall|n: u64| #[trigger]
            ns.contains(n) <==> self.sockets.contains_key(n) && !self.seen.contains(n)
    }

    /// What was found, and the sockets `ns` without an owner after it.
    pub open spec fn with_nameless(self, ns: Seq<u64>) -> Seq<AppModel> {
        self.found + ns.map_values(|n: u64| self.nameless(n))
    }

    /// Whether `apps` is what a search gives: what was found, and each socket
    /// without an owner once after it, in any order.
    pub open spec fn gives(self, apps: Seq<AppModel>) -> bool {
        exists|ns: Seq<u64>| #[trigger]
            self.lists_unseen(ns) && apps == self.with_nameless(ns)
    }

    /// Whether `apps` tells of the sockets `ns`, of each once and in that
    /// order.
    pub open spec fn tells_of(self, apps: Seq<AppModel>, ns: Seq<u64>) -> bool {
        &&& apps.len() == ns.len()
        &&& ns.no_duplicates()
        &&& forall|i: int|
            0 <= i < ns.len() ==> self.sockets.contains_key(#[trigger] ns[i])
                && self.sockets[ns[i]] == (apps[i].port, apps[i].udp)
    }

    /// Whether every socket whose owner is known was listed, and once.
    pub open spec fn accounted(self) -> bool {
        &&& self.found.len() == self.seen.len()
        &&& exists|ns: Seq<u64>| #[trigger]
            self.tells_of(self.found, ns) && ns.to_set() == self.seen
    }
}

/// A search for listening programs.
pub struct Scan {
    pub sockets: HashMap<u64, (u16, bool)>,
    pub seen: HashSet<u64>,
    pub found: Vec<AppPort>,
}

impl View for Scan {
    type V = ScanModel;

    open spec fn view(&self) -> ScanModel {
        ScanModel { sockets: self.sockets@, seen: self.seen@, found: app_models(self.found@) }
    }
}

/// The inode and the port of a waiting socket, from a line of the table.
pub fn parse_row(line: &str, udp: bool) -> (r: Option<(u64, u16)>)
    ensures
        r == row_of(line@, udp),
{
    let cols = words(line);
    let ghost w = crate::text::words_of(line@);
    assert(cols@.len() == w.len());
    if cols.len() < 10 {
        return None;
    }
    assert(w[1] == cols@[1]@ && w[3] == cols@[3]@ && w[9] == cols@[9]@);
    let want = if udp {
        "07"
    } else {
        "0A"
    };
    if !same(cols[3].as_str(), want) {
        return None;
    }
    match rsplit_once(cols[1].as_str(), ':') {
        None => None,
        Some((_, hex)) => {
            let port: Option<u64> = parse_number(hex, 16, 65535);
            let inode: Option<u64> = parse_number(cols[9].as_str(), 10, u64::MAX);
            match (port, inode) {
                (Some(p), Some(n)) => {
                    if p > 0 && n > 0 {
                        Some((n, p as u16))
                    } else {
                        None
                    }
                },
                _ => None,
            }
        },
    }
}

/// The inode that a link names.
pub fn socket_inode(link: &str) -> (r: Option<u64>)
    ensures
        match r {
            Some(n) => linked_inode(link@) == Some(n as int),
            None => linked_inode(link@) is None,
        },
{
    match strip_prefix(link, "socket:[") {
        Some(rest) => match strip_suffix(rest, "]") {
            Some(n) => parse_number(n, 10, u64::MAX),
            None => None,
        },
        None => None,
    }
}

/// Whether a name is the number of a process other than `me`.
pub open spec fn is_foreign(name: Seq<char>, me: u64) -> bool {
    match crate::text::parsed_number(name, 10, u64::MAX as int) {
        Some(pid) => pid != me,
        None => false,
    }
}

/// Whether a directory under `/proc` belongs to another process.
pub fn foreign(name: &str, me: u64) -> (r: bool)
    ensures
        r == is_foreign(name@, me),
{
    match parse_number(name, 10, u64::MAX) {
        Some(pid) => pid != me,
        None => false,
    }
}

impl Scan {
    pub fn new() -> (r: Scan)
        ensures
            r@ == ScanModel::fresh(),
            r@.accounted(),
    {
        let r = Scan { sockets: HashMap::new(), seen: HashSet::new(), found: Vec::new() };
        assert(r@.found =~= Seq::empty());
        proof {
            law_tables_accounted(r@, Seq::empty(), false, Seq::empty());
        }
        r
    }

    /// Adds the waiting sockets of a table.
    pub fn read_table(&mut self, data: &str, udp: bool)
        ensures
            final(self)@ == old(self)@.read(data@, udp),
    {
        broadcast use vstd::std_specs::hash::group_hash_axioms;

        let all = lines(data);
        let ghost ls = crate::text::lines_of(data@);
        let ghost rows = rows_of(data@);
        let ghost m0 = self@.sockets;
        assert(all@.len() == ls.len());
        let mut i: usize = 1;
        if all.len() > 0 {
            assert(rows.take(0) =~= Seq::empty());
            while i < all.len()
                invariant
                    1 <= i <= all@.len(),
                    all@.len() == ls.len(),
                    ls == crate::text::texts(all@),
                    rows == ls.skip(1),
                    self@ == (ScanModel {
                        sockets: with_rows(m0, rows.take(i - 1), udp),
                        ..old(self)@
                    }),
                decreases all@.len() - i,
            {
                broadcast use vstd::std_specs::hash::group_hash_axioms;

                proof {
                    assert(rows.take(i as int).drop_last() =~= rows.take(i - 1));
                    assert(rows.take(i as int).last() == all@[i as int]@);
                }
                if let Some((inode, port)) = parse_row(all[i].as_str(), udp) {
                    let _ = self.sockets.insert(inode, (port, udp));
                }
                i = i + 1;
            }
            assert(rows.take(i - 1) =~= rows);
        }
    }

    /// Drops a socket that this program holds open.
    pub fn drop_own(&mut self, link: &str)
        ensures
            final(self)@ == old(self)@.disowned(link@),
    {
        broadcast use vstd::std_specs::hash::group_hash_axioms;

        if let Some(n) = socket_inode(link) {
            let _ = self.sockets.remove(&n);
            assert(self@.sockets =~= old(self)@.sockets.remove(n));
        }
    }

    /// Whether a link names a socket whose owner is not known yet.
    pub fn wants(&self, link: &str) -> (r: bool)
        ensures
            r == self@.wants(link@),
    {
        broadcast use vstd::std_specs::hash::group_hash_axioms;

        match socket_inode(link) {
            Some(n) => self.sockets.contains_key(&n) && !self.seen.contains(&n),
            None => false,
        }
    }

    /// Takes note of the owner of a socket.
    pub fn claim(&mut self, link: &str, comm: &str)
        ensures
            final(self)@ == old(self)@.claimed(link@, comm@),
    {
        broadcast use vstd::std_specs::hash::group_hash_axioms;

        let n: u64 = match socket_inode(link) {
            Some(n) => n,
            None => return,
        };
        let (port, udp): (u16, bool) = match self.sockets.get(&n) {
            Some(v) => *v,
            None => return,
        };
        if self.seen.insert(n) {
            self.found.push(AppPort { process: trim(comm).to_owned(), port, udp });
            assert(self@.found =~= old(self)@.claimed(link@, comm@).found);
        } else {
            assert(self@.seen =~= old(self)@.seen);
        }
    }

    /// Everything found: the sockets with an owner, then the others, nameless
    /// and in no particular order.
    pub fn finish(self) -> (r: Vec<AppPort>)
        ensures
            self@.gives(app_models(r@)),
    {
        broadcast use vstd::std_specs::hash::group_hash_axioms;

        let ghost was = self@;
        let mut r: Vec<AppPort> = self.found;
        let sockets = self.sockets;
        let seen = self.seen;
        let ghost mut ns: Seq<u64> = Seq::empty();
        assert(app_models(r@) =~= was.with_nameless(ns));
        for kv in it: sockets.iter()
            invariant
                was.sockets == sockets@,
                was.seen == seen@,
                it.seq().no_duplicates(),
                forall|i: int|
                    0 <= i < it.seq().len() ==> sockets@.contains_key(*(#[trigger] it.seq()[i]).0)
                        && sockets@[*it.seq()[i].0] == *it.seq()[i].1,
                forall|k: u64| #[trigger]
                    sockets@.contains_key(k) ==> it.seq().contains((&k, &sockets@[k])),
                app_models(r@) == was.with_nameless(ns),
                ns.no_duplicates(),
                forall|n: u64| #[trigger]
                    ns.contains(n) <==> !was.seen.contains(n) && exists|i: int|
                        0 <= i < it.index() && *(#[trigger] it.seq()[i]).0 == n,
        {
            broadcast use vstd::std_specs::hash::group_hash_axioms;

            let ghost k = it.index() as int;
            let ghost had = ns;
            let (inode, entry) = kv;
            if !seen.contains(inode) {
                let ghost apps = app_models(r@);
                let a = AppPort { process: String::new(), port: entry.0, udp: entry.1 };
                proof {
                    assert(*it.seq()[k].0 == *inode);
                    if had.contains(*inode) {
                        let i = choose|i: int| 0 <= i < k && *(#[trigger] it.seq()[i]).0 == *inode;
                        assert(it.seq()[i] == it.seq()[k]);
                    }
                    lemma_once_more(had, *inode);
                    ns = had.push(*inode);
                    assert(a@.process =~= Seq::empty());
                    assert(was.with_nameless(ns) =~= apps.push(was.nameless(*inode)));
                }
                let ghost x = a@;
                r.push(a);
                assert(app_models(r@) =~= apps.push(x));
            }
            proof {
                assert(*it.seq()[k].0 == *inode);
                assert forall|n: u64| #[trigger] ns.contains(n) <==> !was.seen.contains(n)
                    && exists|i: int| 0 <= i < k + 1 && *(#[trigger] it.seq()[i]).0 == n by {
                    lemma_once_more(had, *inode);
                    if exists|i: int| 0 <= i < k + 1 && *(#[trigger] it.seq()[i]).0 == n {
                        let i = choose|i: int| 0 <= i < k + 1 && *(#[trigger] it.seq()[i]).0 == n;
                        assert(i < k ==> exists|j: int|
                            0 <= j < k && *(#[trigger] it.seq()[j]).0 == n);
                    }
                }
            }
        }
        assert(was.lists_unseen(ns));
        r
    }
}

/// What a list with one more number has.
proof fn lemma_once_more(ns: Seq<u64>, n: u64)
    ensures
        forall|m: u64| #[trigger] ns.push(n).contains(m) <==> ns.contains(m) || m == n,
        ns.no_duplicates() && !ns.contains(n) ==> ns.push(n).no_duplicates(),
{
    let r = ns.push(n);
    assert forall|m: u64| #[trigger] r.contains(m) <==> ns.contains(m) || m == n by {
        if ns.contains(m) {
            let i = choose|i: int| 0 <= i < ns.len() && ns[i] == m;
            assert(r[i] == m);
        }
        assert(r[ns.len() as int] == n);
    }
    if ns.no_duplicates() && !ns.contains(n) {
        assert forall|i: int, j: int| 0 <= i < r.len() && 0 <= j < r.len() && i != j implies r[i]
            != r[j] by {
            if i == ns.len() {
                assert(ns.contains(ns[j]));
            } else if j == ns.len() {
                assert(ns.contains(ns[i]));
            }
        }
    }
}

/// As long as no owner is known, whatever tables are read and whatever sockets
/// of this program are dropped, nothing is listed.
pub proof fn law_tables_accounted(s: ScanModel, data: Seq<char>, udp: bool, link: Seq<char>)
    requires
        s.seen == Set::<u64>::empty(),
        s.found.len() == 0,
    ensures
        s.accounted(),
        s.read(data, udp).accounted(),
        s.disowned(link).accounted(),
{
    let none = Seq::<u64>::empty();
    assert(none.to_set() =~= s.seen);
    assert(s.tells_of(s.found, none));
    assert(s.read(data, udp).tells_of(s.found, none));
    assert(s.disowned(link).tells_of(s.found, none));
}

/// Owners are taken down without losing a socket and without listing one
/// twice.
pub proof fn law_claims_accounted(s: ScanModel, link: Seq<char>, comm: Seq<char>)
    requires
        s.accounted(),
    ensures
        s.claimed(link, comm).accounted(),
        s.claimed(link, comm).sockets == s.sockets,
{
    let c = s.claimed(link, comm);
    if s.wants(link) {
        let n = linked_inode(link)->0 as u64;
        let ns = choose|ns: Seq<u64>| #[trigger]
            s.tells_of(s.found, ns) && ns.to_set() == s.seen;
        let more = ns.push(n);
        assert(!ns.contains(n)) by {
            assert(ns.to_set().contains(n) == ns.contains(n));
        }
        lemma_once_more(ns, n);
        assert(more.to_set() =~= c.seen);
        assert(c.tells_of(c.found, more));
        more.unique_seq_to_set();
    }
}

/// The sockets `seen` that were found, and then those without an owner, are all
/// sockets.
proof fn lemma_all_told(s: ScanModel, seen: Seq<u64>, ns: Seq<u64>)
    requires
        s.tells_of(s.found, seen),
        seen.to_set() == s.seen,
        s.lists_unseen(ns),
    ensures
        s.tells_of(s.with_nameless(ns), seen + ns),
        (seen + ns).to_set() == s.sockets.dom(),
        s.with_nameless(ns).len() == s.sockets.dom().len(),
{
    let all = seen + ns;
    let apps = s.with_nameless(ns);
    assert forall|n: u64| #[trigger] all.to_set().contains(n) == s.sockets.dom().contains(n) by {
        assert(seen.to_set().contains(n) == seen.contains(n));
        if all.contains(n) {
            let i = choose|i: int| 0 <= i < all.len() && all[i] == n;
            if i >= seen.len() {
                assert(ns[i - seen.len()] == n);
                assert(ns.contains(n));
            }
        }
        if seen.contains(n) {
            let i = choose|i: int| 0 <= i < seen.len() && seen[i] == n;
            assert(all[i] == n);
        } else if ns.contains(n) {
            let i = choose|i: int| 0 <= i < ns.len() && ns[i] == n;
            assert(all[i + seen.len()] == n);
        }
    }
    assert(all.to_set() =~= s.sockets.dom());
    assert forall|i: int, j: int| 0 <= i < all.len() && 0 <= j < all.len() && i != j implies all[i]
        != all[j] by {
        if i < seen.len() && j >= seen.len() {
            assert(seen.to_set().contains(seen[i]));
            assert(ns.contains(ns[j - seen.len()]));
        } else if j < seen.len() && i >= seen.len() {
            assert(seen.to_set().contains(seen[j]));
            assert(ns.contains(ns[i - seen.len()]));
        }
    }
    assert forall|i: int| 0 <= i < all.len() implies s.sockets.contains_key(#[trigger] all[i])
        && s.sockets[all[i]] == (apps[i].port, apps[i].udp) by {
        if i < seen.len() {
            assert(seen[i] == all[i]);
        } else {
            assert(ns.contains(ns[i - seen.len()]));
        }
    }
    all.unique_seq_to_set();
}

/// A search lists every waiting socket once, with its port and protocol, and
/// nothing else.
pub proof fn law_every_socket_once(s: ScanModel, ns: Seq<u64>)
    requires
        s.accounted(),
        s.lists_unseen(ns),
    ensures
        exists|all: Seq<u64>| #[trigger]
            s.tells_of(s.with_nameless(ns), all) && all.to_set() == s.sockets.dom(),
        s.with_nameless(ns).len() == s.sockets.dom().len(),
{
    let seen = choose|seen: Seq<u64>| #[trigger]
        s.tells_of(s.found, seen) && seen.to_set() == s.seen;
    lemma_all_told(s, seen, ns);
}

/// Whether a row of a table gives the socket `n`.
pub open spec fn gives(row: Seq<char>, udp: bool, n: u64) -> bool {
    row_of(row, udp) matches Some((inode, port)) && inode == n
}

/// Whether one of the rows of a table gives the socket `n`.
pub open spec fn is_given(rows: Seq<Seq<char>>, udp: bool, n: u64) -> bool {
    exists|i: int| 0 <= i < rows.len() && gives(#[trigger] rows[i], udp, n)
}

/// A table adds the sockets that its rows give, and no others, each with a port
/// that a row gives for it.
pub proof fn law_sockets_by_inode(m: Map<u64, (u16, bool)>, rows: Seq<Seq<char>>, udp: bool, n: u64)
    ensures
        with_rows(m, rows, udp).contains_key(n) <==> m.contains_key(n) || is_given(rows, udp, n),
        !is_given(rows, udp, n) && m.contains_key(n) ==> with_rows(m, rows, udp)[n] == m[n],
        is_given(rows, udp, n) ==> with_rows(m, rows, udp)[n].1 == udp && exists|i: int|
            0 <= i < rows.len() && row_of(#[trigger] rows[i], udp) == Some(
                (n, with_rows(m, rows, udp)[n].0),
            ),
    decreases rows.len(),
{
    if rows.len() > 0 {
        let init = rows.drop_last();
        law_sockets_by_inode(m, init, udp, n);
        let before = with_rows(m, init, udp);
        assert(rows[rows.len() - 1] == rows.last());
        if is_given(rows, udp, n) && !gives(rows.last(), udp, n) {
            let i = choose|i: int| 0 <= i < rows.len() && gives(#[trigger] rows[i], udp, n);
            assert(init[i] == rows[i]);
        }
        if is_given(init, udp, n) {
            let i = choose|i: int| 0 <= i < init.len() && gives(#[trigger] init[i], udp, n);
            assert(rows[i] == init[i]);
            let k = choose|k: int|
                0 <= k < init.len() && row_of(#[trigger] init[k], udp) == Some((n, before[n].0));
            assert(rows[k] == init[k]);
        }
    }
}

/// With tables read one after the other.
pub open spec fn tables_read(s: ScanModel, tables: Seq<(Seq<char>, bool)>) -> ScanModel
    decreases tables.len(),
{
    if tables.len() == 0 {
        s
    } else {
        tables_read(s, tables.drop_last()).read(tables.last().0, tables.last().1)
    }
}

/// Without the sockets of this program.
pub open spec fn own_dropped(s: ScanModel, own: Seq<Seq<char>>) -> ScanModel
    decreases own.len(),
{
    if own.len() == 0 {
        s
    } else {
        own_dropped(s, own.drop_last()).disowned(own.last())
    }
}

/// With the links of other programs, each with the program's name, gone
/// through.
pub open spec fn owners_taken(s: ScanModel, owners: Seq<(Seq<char>, Seq<char>)>) -> ScanModel
    decreases owners.len(),
{
    if owners.len() == 0 {
        s
    } else {
        owners_taken(s, owners.drop_last()).claimed(owners.last().0, owners.last().1)
    }
}

/// A whole search.
pub open spec fn searched(
    tables: Seq<(Seq<char>, bool)>,
    own: Seq<Seq<char>>,
    owners: Seq<(Seq<char>, Seq<char>)>,
) -> ScanModel {
    owners_taken(own_dropped(tables_read(ScanModel::fresh(), tables), own), owners)
}

/// Whether one of the links names the socket `n`.
pub open spec fn is_linked(links: Seq<Seq<char>>, n: u64) -> bool {
    exists|i: int| 0 <= i < links.len() && linked_inode(#[trigger] links[i]) == Some(n as int)
}

/// Whether a program of that name holds the socket `n` open.
pub open spec fn holds(owners: Seq<(Seq<char>, Seq<char>)>, n: u64, process: Seq<char>) -> bool {
    exists|i: int|
        0 <= i < owners.len() && linked_inode((#[trigger] owners[i]).0) == Some(n as int)
            && crate::text::trimmed(owners[i].1) == process
}

/// Whether `seen` are the sockets that were found, each held by the program
/// that is listed with it.
pub open spec fn held_by(s: ScanModel, owners: Seq<(Seq<char>, Seq<char>)>, seen: Seq<u64>) -> bool {
    &&& s.tells_of(s.found, seen)
    &&& seen.to_set() == s.seen
    &&& forall|i: int|
        0 <= i < seen.len() ==> holds(owners, #[trigger] seen[i], s.found[i].process)
}

proof fn lemma_inode_in_range(link: Seq<char>)
    ensures
        linked_inode(link) matches Some(n) ==> 0 <= n <= u64::MAX,
{
    if let Some(rest) = crate::text::without_prefix(link, "socket:["@) {
        if let Some(n) = crate::text::without_suffix(rest, "]"@) {
            crate::text::lemma_parsed_in_range(n, 10, u64::MAX as int);
        }
    }
}

proof fn lemma_tables(s: ScanModel, tables: Seq<(Seq<char>, bool)>)
    ensures
        tables_read(s, tables).seen == s.seen,
        tables_read(s, tables).found == s.found,
    decreases tables.len(),
{
    if tables.len() > 0 {
        lemma_tables(s, tables.drop_last());
    }
}

proof fn lemma_own(s: ScanModel, own: Seq<Seq<char>>)
    ensures
        own_dropped(s, own).seen == s.seen,
        own_dropped(s, own).found == s.found,
        forall|n: u64| #[trigger]
            own_dropped(s, own).sockets.contains_key(n) <==> s.sockets.contains_key(n)
                && !is_linked(own, n),
        forall|n: u64|
            own_dropped(s, own).sockets.contains_key(n) ==> #[trigger] own_dropped(
                s,
                own,
            ).sockets[n] == s.sockets[n],
    decreases own.len(),
{
    if own.len() > 0 {
        let init = own.drop_last();
        lemma_own(s, init);
        assert forall|n: u64| #[trigger] is_linked(own, n) <==> is_linked(init, n) || linked_inode(
            own.last(),
        ) == Some(n as int) by {
            if is_linked(own, n) {
                let i = choose|i: int|
                    0 <= i < own.len() && linked_inode(#[trigger] own[i]) == Some(n as int);
                if i < init.len() {
                    assert(init[i] == own[i]);
                }
            }
            if is_linked(init, n) {
                let i = choose|i: int|
                    0 <= i < init.len() && linked_inode(#[trigger] init[i]) == Some(n as int);
                assert(own[i] == init[i]);
            }
            assert(own[own.len() - 1] == own.last());
        }
        lemma_inode_in_range(own.last());
    }
}

proof fn lemma_holds(owners: Seq<(Seq<char>, Seq<char>)>, n: u64, process: Seq<char>)
    requires
        owners.len() > 0,
    ensures
        holds(owners, n, process) <==> holds(owners.drop_last(), n, process) || (linked_inode(
            owners.last().0,
        ) == Some(n as int) && crate::text::trimmed(owners.last().1) == process),
{
    let init = owners.drop_last();
    assert(owners[owners.len() - 1] == owners.last());
    if holds(owners, n, process) {
        let i = choose|i: int|
            0 <= i < owners.len() && linked_inode((#[trigger] owners[i]).0) == Some(n as int)
                && crate::text::trimmed(owners[i].1) == process;
        if i < init.len() {
            assert(init[i] == owners[i]);
        }
    }
    if holds(init, n, process) {
        let i = choose|i: int|
            0 <= i < init.len() && linked_inode((#[trigger] init[i]).0) == Some(n as int)
                && crate::text::trimmed(init[i].1) == process;
        assert(owners[i] == init[i]);
    }
}

proof fn lemma_owners(s: ScanModel, owners: Seq<(Seq<char>, Seq<char>)>)
    requires
        s.seen == Set::<u64>::empty(),
        s.found.len() == 0,
    ensures
        owners_taken(s, owners).sockets == s.sockets,
        exists|seen: Seq<u64>| #[trigger] held_by(owners_taken(s, owners), owners, seen),
        forall|n: u64, process: Seq<char>| #[trigger]
            holds(owners, n, process) && s.sockets.contains_key(n) ==> owners_taken(
                s,
                owners,
            ).seen.contains(n),
    decreases owners.len(),
{
    let r = owners_taken(s, owners);
    if owners.len() == 0 {
        let none = Seq::<u64>::empty();
        assert(none.to_set() =~= s.seen);
        assert(held_by(r, owners, none));
    } else {
        let init = owners.drop_last();
        let b = owners_taken(s, init);
        lemma_owners(s, init);
        let was = choose|seen: Seq<u64>| #[trigger] held_by(b, init, seen);
        let link = owners.last().0;
        lemma_inode_in_range(link);
        let seen = if b.wants(link) {
            was.push(linked_inode(link)->0 as u64)
        } else {
            was
        };
        if b.wants(link) {
            let n = linked_inode(link)->0 as u64;
            assert(was.to_set().contains(n) == was.contains(n));
            lemma_once_more(was, n);
            assert(seen.to_set() =~= r.seen);
        }
        assert forall|i: int| 0 <= i < seen.len() implies holds(
            owners,
            #[trigger] seen[i],
            r.found[i].process,
        ) by {
            lemma_holds(owners, seen[i], r.found[i].process);
            if i < was.len() {
                assert(was[i] == seen[i]);
                assert(b.found[i] == r.found[i]);
            }
        }
        assert(held_by(r, owners, seen));
        assert forall|n: u64, process: Seq<char>| #[trigger]
            holds(owners, n, process) && s.sockets.contains_key(n) implies r.seen.contains(n) by {
            lemma_holds(owners, n, process);
        }
    }
}

/// A whole search lists, once each and with their port and protocol, the
/// sockets of the tables that this program does not hold open. First come those
/// that another program holds open, each with the name of one that does; those
/// after them are nameless, and no link names them.
pub proof fn law_whole_search(
    tables: Seq<(Seq<char>, bool)>,
    own: Seq<Seq<char>>,
    owners: Seq<(Seq<char>, Seq<char>)>,
    ns: Seq<u64>,
)
    requires
        searched(tables, own, owners).lists_unseen(ns),
    ensures
        ({
            let s = searched(tables, own, owners);
            let given = tables_read(ScanModel::fresh(), tables).sockets;
            &&& forall|n: u64| #[trigger]
                s.sockets.contains_key(n) <==> given.contains_key(n) && !is_linked(own, n)
            &&& forall|n: u64|
                s.sockets.contains_key(n) ==> #[trigger] s.sockets[n] == given[n]
            &&& s.with_nameless(ns).len() == s.sockets.dom().len()
            &&& exists|seen: Seq<u64>|
                {
                    &&& #[trigger] held_by(s, owners, seen)
                    &&& s.tells_of(s.with_nameless(ns), seen + ns)
                    &&& (seen + ns).to_set() == s.sockets.dom()
                }
            &&& forall|i: int, process: Seq<char>|
                0 <= i < ns.len() ==> !#[trigger] holds(owners, ns[i], process)
        }),
{
    let fresh = ScanModel::fresh();
    let read = tables_read(fresh, tables);
    let left = own_dropped(read, own);
    let s = searched(tables, own, owners);
    lemma_tables(fresh, tables);
    lemma_own(read, own);
    lemma_owners(left, owners);
    let seen = choose|seen: Seq<u64>| #[trigger] held_by(s, owners, seen);
    lemma_all_told(s, seen, ns);
    assert forall|i: int, process: Seq<char>| 0 <= i < ns.len() implies !#[trigger] holds(
        owners,
        ns[i],
        process,
    ) by {
        assert(ns.contains(ns[i]));
    }
}

/// A listing depends only on what was found, not on the order or on how often
/// it was found: two listings of the same sockets are the same.
pub proof fn law_listing_unique(a: Seq<AppModel>, b: Seq<AppModel>)
    requires
        strictly_listed(a),
        strictly_listed(b),
        forall|x: AppModel| #[trigger] a.contains(x) <==> b.contains(x),
    ensures
        a == b,
    decreases a.len(),
{
    lemma_app_order();
    if a.len() == 0 {
        if b.len() > 0 {
            assert(b.contains(b[0]));
            assert(a.contains(b[0]));
        }
        assert(a =~= b);
    } else {
        assert(a.contains(a[0]));
        assert(b.contains(a[0]));
        assert(b.contains(b[0]));
        assert(a.contains(b[0]));
        let i = choose|i: int| 0 <= i < b.len() && b[i] == a[0];
        let j = choose|j: int| 0 <= j < a.len() && a[j] == b[0];
        assert(i > 0 ==> app_le(b[0], b[i]));
        assert(j > 0 ==> app_le(a[0], a[j]));
        assert(app_le(a[0], b[0]) && app_le(b[0], a[0]));
        assert(a[0] == b[0]);
        let a1 = a.drop_first();
        let b1 = b.drop_first();
        assert forall|x: AppModel| #[trigger] a1.contains(x) <==> b1.contains(x) by {
            lemma_drop_first_contains(a, x);
            lemma_drop_first_contains(b, x);
        }
        assert(strictly_listed(a1)) by {
            assert forall|p: int, q: int| 0 <= p < q < a1.len() implies app_le(
                #[trigger] a1[p],
                #[trigger] a1[q],
            ) && a1[p] != a1[q] by {
                assert(a1[p] == a[p + 1] && a1[q] == a[q + 1]);
            }
        }
        assert(strictly_listed(b1)) by {
            assert forall|p: int, q: int| 0 <= p < q < b1.len() implies app_le(
                #[trigger] b1[p],
                #[trigger] b1[q],
            ) && b1[p] != b1[q] by {
                assert(b1[p] == b[p + 1] && b1[q] == b[q + 1]);
            }
        }
        law_listing_unique(a1, b1);
        assert(a =~= seq![a[0]] + a1);
        assert(b =~= seq![b[0]] + b1);
    }
}

proof fn lemma_drop_first_contains(s: Seq<AppModel>, x: AppModel)
    requires
        s.len() > 0,
        strictly_listed(s),
    ensures
        s.drop_first().contains(x) <==> s.contains(x) && x != s[0],
{
    let t = s.drop_first();
    if t.contains(x) {
        let i = choose|i: int| 0 <= i < t.len() && t[i] == x;
        assert(s[i + 1] == x);
    }
    if s.contains(x) && x != s[0] {
        let i = choose|i: int| 0 <= i < s.len() && s[i] == x;
        assert(t[i - 1] == x);
    }
}

/// A socket that this program holds open is not taken for another program's,
/// and no other socket is lost with it.
pub proof fn law_own_sockets_dropped(s: ScanModel, link: Seq<char>, comm: Seq<char>, n: u64)
    requires
        linked_inode(link) == Some(n as int),
    ensures
        !s.disowned(link).wants(link),
        s.disowned(link).claimed(link, comm) == s.disowned(link),
        forall|m: u64|
            m != n ==> (#[trigger] s.disowned(link).sockets.contains_key(m)
                == s.sockets.contains_key(m)),
{
}

} // verus!
