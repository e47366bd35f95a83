use steam_tunnel::lists::keep_last;
use steam_tunnel::text::{
    copy_texts, equal_ignoring_case, lines, number, ordered, parse_number, rsplit_once, same,
    strip_prefix, strip_suffix, trim, words,
};

#[test]
fn trims_white_space_of_all_kinds() {
    assert_eq!(trim("  a b\t\r\n"), "a b");
    assert_eq!(trim("\u{3000}x\u{2009}"), "x");
    assert_eq!(trim(" \n "), "");
    assert_eq!(trim(""), "");
    for c in ['\u{1680}', '\u{85}', '\u{a0}', '\u{200b}', '\u{feff}', '\u{1f}', 'ß'] {
        let s = format!("{c}k{c}");
        assert_eq!(trim(&s), s.trim());
    }
}

#[test]
fn parses_numbers_like_the_standard_library() {
    for s in ["0", "7", "+7", "65535", "65536", "", "+", "-1", "1a", " 1", "00012", "99999999999"] {
        assert_eq!(parse_number(s, 10, 65535).map(|n| n as u16), s.parse::<u16>().ok(), "{s:?}");
        assert_eq!(parse_number(s, 10, u64::MAX), s.parse::<u64>().ok(), "{s:?}");
        assert_eq!(
            parse_number(s, 16, 65535).map(|n| n as u16),
            u16::from_str_radix(s, 16).ok(),
            "{s:?}"
        );
    }
    assert_eq!(parse_number("1F90", 16, 65535), Some(8080));
    assert_eq!(parse_number("1f90", 16, 65535), Some(8080));
    assert_eq!(parse_number("18446744073709551615", 10, u64::MAX), Some(u64::MAX));
    assert_eq!(parse_number("18446744073709551616", 10, u64::MAX), None);
}

#[test]
fn writes_numbers_that_read_back() {
    for n in [0, 9, 10, 480, 65535, 76561197960287930, u64::MAX] {
        assert_eq!(number(n), n.to_string());
        assert_eq!(parse_number(&number(n), 10, u64::MAX), Some(n));
    }
}

#[test]
fn splits_text() {
    assert_eq!(strip_prefix("steam-tunnel-v1:80", "steam-tunnel-v1:"), Some("80"));
    assert_eq!(strip_prefix("steam", "steam-tunnel-v1:"), None);
    assert_eq!(strip_suffix("80:udp", ":udp"), Some("80"));
    assert_eq!(strip_suffix("80", ":udp"), None);
    assert_eq!(strip_suffix("dp", ":udp"), None);
    assert_eq!(rsplit_once("[::1]:80", ':'), Some(("[::1]", "80")));
    assert_eq!(rsplit_once("nas", ':'), None);
    assert_eq!(rsplit_once(":80", ':'), Some(("", "80")));
    assert_eq!(words("  0: 0100007F:1F90  0A "), vec!["0:", "0100007F:1F90", "0A"]);
    assert_eq!(words(" \t "), Vec::<String>::new());
    for s in ["a\nb", "a\r\nb\n", "", "\n", "a\n\nb\n", "a\rb"] {
        let expected: Vec<&str> = s.lines().collect();
        assert_eq!(lines(s), expected, "{s:?}");
    }
}

#[test]
fn compares_text() {
    assert!(same("läd", "läd"));
    assert!(!same("a", "A"));
    assert!(equal_ignoring_case("HOST", "Host"));
    assert!(equal_ignoring_case("x-st", "X-ST"));
    assert!(!equal_ignoring_case("Hosts", "Host"));
    assert!(!equal_ignoring_case("Ä", "ä"));
    for (a, b) in [("", "a"), ("a", "ab"), ("B", "a"), ("z", "ä"), ("\u{ffff}", "\u{10000}")] {
        assert_eq!(ordered(a, b), a <= b);
        assert_eq!(ordered(b, a), b <= a);
        assert!(ordered(a, a));
    }
}

#[test]
fn copies_and_shortens_lists() {
    let v = vec!["a".to_string(), "b".to_string()];
    assert_eq!(copy_texts(&v), v);
    let mut n: Vec<u8> = vec![1, 2, 3, 4];
    keep_last(&mut n, 3);
    assert_eq!(n, vec![2, 3, 4]);
    keep_last(&mut n, 3);
    assert_eq!(n, vec![2, 3, 4]);
    keep_last(&mut n, 0);
    assert!(n.is_empty());
}
