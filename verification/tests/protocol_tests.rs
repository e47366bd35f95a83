use steam_tunnel::auth::{fresh_nonce, mac_matches, nonce_from, psk_key, psk_mac};
use steam_tunnel::handshake::{is_ok, judge, parse_answer, parse_hello, Answer, Verdict};
use steam_tunnel::protocol::{
    auth_reply, conn_options, data_flags, extend, frame, hello, noauth_reply, parse_frame,
    starts_with_magic, SendMode, SendRates, APP_VERSION, F_CLOSE, F_DATA, M_AUTH, M_HELLO, M_NOAUTH,
    M_OK,
};

#[test]
fn frames_are_type_id_and_payload() {
    assert_eq!(frame(F_DATA, 0x01020304, b"hi"), vec![0, 1, 2, 3, 4, b'h', b'i']);
    assert_eq!(frame(F_CLOSE, 7, &[]), vec![3, 0, 0, 0, 7]);
}

#[test]
fn a_frame_reads_back() {
    for sid in [0, 1, 255, 256, 0xdeadbeef, u32::MAX] {
        let f = frame(F_DATA, sid, b"payload");
        assert_eq!(parse_frame(&f), Some((F_DATA, sid, &b"payload"[..])));
    }
    assert_eq!(parse_frame(&[0, 0, 0, 1]), None);
    assert_eq!(parse_frame(&[9, 0, 0, 0, 1]), Some((9, 1, &[][..])));
}

#[test]
fn magic_bytes_spell_the_message_names() {
    assert_eq!(&M_HELLO, b"STH3");
    assert_eq!(&M_AUTH, b"STA3");
    assert_eq!(&M_NOAUTH, b"STN3");
    assert_eq!(&M_OK, b"STK3");
    assert!(starts_with_magic(b"STK3", &M_OK));
    assert!(!starts_with_magic(b"STK", &M_OK));
    assert!(!starts_with_magic(b"STK2x", &M_OK));
}

#[test]
fn small_datagrams_go_unreliably() {
    assert_eq!(data_flags(true, 1150), SendMode::Unreliable);
    assert_eq!(data_flags(true, 1151), SendMode::Reliable);
    assert_eq!(data_flags(false, 10), SendMode::Reliable);
}

#[test]
fn send_rates() {
    assert_eq!(conn_options(0), None);
    assert_eq!(conn_options(1), Some(SendRates { min: 1024, max: 1024 }));
    assert_eq!(conn_options(128), Some(SendRates { min: 131072, max: 131072 }));
    assert_eq!(conn_options(2048), Some(SendRates { min: 131072, max: 2097152 }));
    assert_eq!(conn_options(0x1f_ffff), Some(SendRates { min: 131072, max: 2147482624 }));
    assert_eq!(conn_options(0x20_0000), Some(SendRates { min: 131072, max: i32::MAX }));
    assert_eq!(conn_options(0x7fff_ffff), Some(SendRates { min: 131072, max: i32::MAX }));
    assert_eq!(conn_options(u32::MAX), Some(SendRates { min: 131072, max: i32::MAX }));
    assert_eq!(conn_options(0x8000_0000), Some(SendRates { min: 131072, max: i32::MAX }));
}

#[test]
fn greetings_read_back() {
    let nonce = [7u8; 32];
    let h = hello(true, &nonce);
    assert_eq!(&h[..4], b"STH3");
    assert_eq!(h[4], 1);
    assert_eq!(&h[37..], APP_VERSION.as_bytes());
    let p = parse_hello(&h).unwrap();
    assert!(p.auth_required);
    assert_eq!(p.nonce, nonce);
    assert_eq!(p.version, APP_VERSION.as_bytes());
    assert!(!parse_hello(&hello(false, &nonce)).unwrap().auth_required);
    assert!(parse_hello(&h[..36]).is_none());
    assert!(parse_hello(&h[..37]).is_some());
    let mut old = h.clone();
    old[3] = b'2';
    assert!(parse_hello(&old).is_none());
}

#[test]
fn answers_read_back() {
    let mac = [9u8; 32];
    let a = auth_reply(&mac, true);
    match parse_answer(&a) {
        Answer::Auth { mac: m, proto, version } => {
            assert_eq!(m, mac);
            assert_eq!(proto, 1);
            assert_eq!(version, APP_VERSION.as_bytes());
        }
        _ => panic!("not an answer with a proof"),
    }
    let n = noauth_reply(false);
    assert_eq!(&n[..5], b"STN3\0");
    match parse_answer(&n) {
        Answer::NoAuth { proto, version } => {
            assert_eq!(proto, 0);
            assert_eq!(version, APP_VERSION.as_bytes());
        }
        _ => panic!("not an answer without a proof"),
    }
    assert!(matches!(parse_answer(&a[..36]), Answer::Other));
    assert!(matches!(parse_answer(b"STN3"), Answer::Other));
    assert!(matches!(parse_answer(b""), Answer::Other));
}

#[test]
fn verdicts() {
    let auth = auth_reply(&[0; 32], false);
    let auth = parse_answer(&auth);
    let none = noauth_reply(false);
    let none = parse_answer(&none);
    assert_eq!(judge(true, true, &auth, false), Verdict::Accepted);
    assert_eq!(judge(true, true, &auth, true), Verdict::ProtocolMismatch);
    assert_eq!(judge(true, false, &auth, false), Verdict::AuthFailed);
    assert_eq!(judge(false, true, &auth, false), Verdict::AuthFailed);
    assert_eq!(judge(true, false, &none, false), Verdict::AuthFailed);
    assert_eq!(judge(false, false, &none, false), Verdict::Accepted);
    assert_eq!(judge(false, false, &none, true), Verdict::ProtocolMismatch);
    assert_eq!(judge(false, false, &Answer::Other, false), Verdict::AuthFailed);
}

#[test]
fn the_go_ahead_is_exact() {
    assert!(is_ok(b"STK3"));
    assert!(!is_ok(b"STK3 "));
    assert!(!is_ok(b"STK"));
    assert!(!is_ok(b"STN3"));
}

#[test]
fn the_key_and_the_proof_are_keyed_blake3() {
    let key = blake3::derive_key("steam-tunnel psk v1", "geheim ö".as_bytes());
    assert_eq!(psk_key("geheim ö"), key);
    assert_ne!(psk_key("geheim"), key);
    let nonce = [3u8; 32];
    assert_eq!(psk_mac("geheim ö", &nonce), *blake3::keyed_hash(&key, &nonce).as_bytes());
}

#[test]
fn only_the_right_proof_is_accepted() {
    let nonce = [5u8; 32];
    let mac = psk_mac("k", &nonce);
    assert!(mac_matches("k", &nonce, &mac));
    assert!(!mac_matches("K", &nonce, &mac));
    assert!(!mac_matches("k", &[6u8; 32], &mac));
    let mut other = mac;
    other[31] ^= 1;
    assert!(!mac_matches("k", &nonce, &other));
    assert!(!mac_matches("k", &nonce, &mac[..31]));
}

#[test]
fn challenges_are_random() {
    assert_eq!(nonce_from(true, [1; 32]), Some([1; 32]));
    assert_eq!(nonce_from(false, [1; 32]), None);
    let a = fresh_nonce().unwrap();
    let b = fresh_nonce().unwrap();
    assert_ne!(a, b);
    assert_ne!(a, [0; 32]);
}

#[test]
fn extending() {
    let mut v: Vec<u8> = vec![1];
    extend(&mut v, &[2, 3]);
    assert_eq!(v, vec![1, 2, 3]);
}
