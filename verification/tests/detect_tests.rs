use steam_tunnel::detect::{foreign, listening_ports, parse_row, socket_inode, AppPort, Scan};

const HEAD: &str = "  sl  local_address rem_address   st tx_queue rx_queue tr tm->when retrnsmt   uid  timeout inode";

fn tcp_line(port: u16, st: &str, inode: u64) -> String {
    format!(
        "   0: 0100007F:{port:04X} 00000000:0000 {st} 00000000:00000000 00:00000000 00000000  1000        0 {inode} 1 0 100 0 0 10 0"
    )
}

fn app(process: &str, port: u16, udp: bool) -> AppPort {
    AppPort { process: process.to_string(), port, udp }
}

#[test]
fn rows_of_the_socket_table() {
    assert_eq!(parse_row(&tcp_line(8080, "0A", 77), false), Some((77, 8080)));
    assert_eq!(parse_row(&tcp_line(8080, "01", 77), false), None);
    assert_eq!(parse_row(&tcp_line(8080, "0A", 77), true), None);
    assert_eq!(parse_row(&tcp_line(8080, "07", 77), true), Some((77, 8080)));
    assert_eq!(parse_row(&tcp_line(0, "0A", 77), false), None);
    assert_eq!(parse_row(&tcp_line(80, "0A", 0), false), None);
    assert_eq!(parse_row("0: 1:1 2 0A", false), None);
    let v6 = "0: 00000000000000000000000001000000:1F90 00:0000 0A 0:0 0:0 0 1000 0 5 1";
    assert_eq!(parse_row(v6, false), Some((5, 8080)));
    assert_eq!(parse_row("0: nocolon 0 0A 0 0 0 0 0 5", false), None);
    assert_eq!(parse_row("0: a:XYZ 0 0A 0 0 0 0 0 5", false), None);
    assert_eq!(parse_row("0: a:10 0 0A 0 0 0 0 0 x", false), None);
    assert_eq!(parse_row(HEAD, false), None);
}

#[test]
fn links_of_open_files() {
    assert_eq!(socket_inode("socket:[4242]"), Some(4242));
    assert_eq!(socket_inode("pipe:[4242]"), None);
    assert_eq!(socket_inode("socket:[4242"), None);
    assert_eq!(socket_inode("socket:[]"), None);
    assert_eq!(socket_inode("/dev/null"), None);
    assert!(foreign("123", 7));
    assert!(!foreign("7", 7));
    assert!(!foreign("self", 7));
}

#[test]
fn a_search() {
    let mut s = Scan::new();
    let table = format!(
        "{}\n{}\n{}\n{}\n",
        tcp_line(1, "0A", 99),
        tcp_line(8080, "0A", 10),
        tcp_line(9090, "0A", 11),
        tcp_line(7070, "0A", 12)
    );
    s.read_table(&table, false);
    s.read_table(&format!("{HEAD}\n{}\n", tcp_line(5353, "07", 20)), true);
    s.read_table("", true);
    s.drop_own("socket:[12]");
    s.drop_own("/dev/null");
    assert!(s.wants("socket:[10]"));
    assert!(!s.wants("socket:[12]"));
    assert!(!s.wants("socket:[99]"));
    s.claim("socket:[10]", "httpd\n");
    s.claim("socket:[10]", "child\n");
    s.claim("socket:[1]", "other");
    assert!(!s.wants("socket:[10]"));
    let found = listening_ports(s.finish());
    assert_eq!(found, vec![app("", 5353, true), app("", 9090, false), app("httpd", 8080, false)]);
}

#[test]
fn every_socket_is_found_once() {
    let mut s = Scan::new();
    s.read_table(
        "hdr\n0: 0100007F:1F90 0:0 0A 0:0 0:0 0 1000 0 12345\n1: 0100007F:1F91 0:0 01 0:0 0:0 0 1000 0 12346\n",
        false,
    );
    s.read_table("hdr\n0: 00000000:6989 0:0 07 0:0 0:0 0 1000 0 777\n", true);
    let mut found = s.finish();
    found.sort_by_key(|a| a.port);
    assert_eq!(found, vec![app("", 8080, false), app("", 27017, true)]);

    let mut s = Scan::new();
    let v4 = format!("{HEAD}\n{}\n{}\n", tcp_line(80, "0A", 1), tcp_line(80, "0A", 2));
    s.read_table(&v4, false);
    s.read_table(&v4, false);
    s.claim("socket:[2]", "httpd");
    s.claim("socket:[2]", "httpd");
    assert_eq!(s.finish(), vec![app("httpd", 80, false), app("", 80, false)]);
}

#[test]
fn listings_are_sorted_and_unique() {
    let found = vec![
        app("b", 2000, false),
        app("a", 3000, true),
        app("a", 3000, false),
        app("", 4000, false),
        app("b", 2000, false),
        app("a", 1023, false),
        app("a", 1024, false),
    ];
    let expected = vec![
        app("", 4000, false),
        app("a", 1024, false),
        app("a", 3000, false),
        app("a", 3000, true),
        app("b", 2000, false),
    ];
    assert_eq!(listening_ports(found.clone()), expected);
    let mut other = found;
    other.reverse();
    assert_eq!(listening_ports(other), expected);
    assert!(listening_ports(Vec::new()).is_empty());
}
