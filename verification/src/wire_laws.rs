//! The bytes on the wire, and what a pre-shared key proves.
use vstd::prelude::*;

use crate::handshake::{AnswerModel, HelloModel};
use crate::protocol::FrameModel;

verus! {

/// A frame is its type, its stream id with the most significant byte first,
/// and its payload; a message that is shorter than that is none.
pub proof fn law_frame_layout(data: Seq<u8>, t: u8, a: u8, b: u8, c: u8, d: u8, payload: Seq<u8>)
    ensures
        crate::protocol::frame_of(seq![t, a, b, c, d] + payload) == Some(
            FrameModel {
                ftype: t,
                sid: (a * 16777216 + b * 65536 + c * 256 + d) as u32,
                payload,
            },
        ),
        crate::protocol::frame_bytes(
            t,
            (a * 16777216 + b * 65536 + c * 256 + d) as u32,
            payload,
        ) == seq![t, a, b, c, d] + payload,
        data.len() < 5 ==> crate::protocol::frame_of(data) is None,
{
    let f = seq![t, a, b, c, d] + payload;
    assert(f.subrange(1, 5) =~= seq![a, b, c, d]);
    assert(f.skip(5) =~= payload);
    crate::protocol::law_frame_faithful(f);
    assert(crate::protocol::id_of(seq![a, b, c, d]) == (a * 16777216 + b * 65536 + c * 256
        + d) as u32);
}

/// The numbers of the frame types.
pub proof fn law_frame_types()
    ensures
        crate::protocol::F_DATA == 0,
        crate::protocol::F_EOF == 1,
        crate::protocol::F_OPEN == 2,
        crate::protocol::F_CLOSE == 3,
{
}

/// The greeting is `STH3`, 1 where a key is demanded and 0 where not, the 32
/// bytes of the challenge, and the version.
pub proof fn law_greeting_layout(required: bool, nonce: [u8; 32])
    ensures
        ({
            let h = crate::protocol::hello_bytes(required, nonce@);
            &&& h.take(4) == seq![0x53u8, 0x54, 0x48, 0x33]
            &&& h[4] == 1 <==> required
            &&& h[4] == 0 <==> !required
            &&& h.subrange(5, 37) == nonce@
            &&& h.skip(37) == vstd::utf8::encode_utf8("0.1.0"@)
        }),
{
    let h = crate::protocol::hello_bytes(required, nonce@);
    assert(h.take(4) =~= seq![0x53u8, 0x54, 0x48, 0x33]);
    assert(h.subrange(5, 37) =~= nonce@);
    assert(h.skip(37) =~= vstd::utf8::encode_utf8("0.1.0"@));
}

/// The client's answer is `STA3` and the 32 bytes of the proof, or `STN3` and
/// no proof; then 1 for UDP and 0 for TCP, and the version. The go-ahead is
/// `STK3`.
pub proof fn law_answer_layout(mac: [u8; 32], udp: bool)
    ensures
        ({
            let a = crate::protocol::auth_bytes(mac@, udp);
            let n = crate::protocol::noauth_bytes(udp);
            &&& a.take(4) == seq![0x53u8, 0x54, 0x41, 0x33]
            &&& a.subrange(4, 36) == mac@
            &&& a[36] == 1 <==> udp
            &&& a[36] == 0 <==> !udp
            &&& a.skip(37) == vstd::utf8::encode_utf8("0.1.0"@)
            &&& n.take(4) == seq![0x53u8, 0x54, 0x4e, 0x33]
            &&& n[4] == 1 <==> udp
            &&& n[4] == 0 <==> !udp
            &&& n.skip(5) == vstd::utf8::encode_utf8("0.1.0"@)
            &&& crate::protocol::M_OK@ == seq![0x53u8, 0x54, 0x4b, 0x33]
        }),
{
    let a = crate::protocol::auth_bytes(mac@, udp);
    let n = crate::protocol::noauth_bytes(udp);
    assert(a.take(4) =~= seq![0x53u8, 0x54, 0x41, 0x33]);
    assert(a.subrange(4, 36) =~= mac@);
    assert(a.skip(37) =~= vstd::utf8::encode_utf8("0.1.0"@));
    assert(n.take(4) =~= seq![0x53u8, 0x54, 0x4e, 0x33]);
    assert(n.skip(5) =~= vstd::utf8::encode_utf8("0.1.0"@));
    assert(crate::protocol::M_OK@ =~= seq![0x53u8, 0x54, 0x4b, 0x33]);
}

/// What is read of a greeting or an answer that another version wrote: the
/// same fields in the same places, and whatever follows as the version.
pub proof fn law_other_versions(flag: u8, nonce: [u8; 32], proto: u8, version: Seq<u8>)
    ensures
        crate::handshake::hello_of(
            seq![0x53u8, 0x54, 0x48, 0x33, flag] + nonce@ + version,
        ) == Some(HelloModel { auth_required: flag == 1, nonce: nonce@, version }),
        crate::handshake::answer_of(
            seq![0x53u8, 0x54, 0x41, 0x33] + nonce@ + seq![proto] + version,
        ) == (AnswerModel::Auth { mac: nonce@, proto, version }),
        crate::handshake::answer_of(seq![0x53u8, 0x54, 0x4e, 0x33, proto] + version) == (
        AnswerModel::NoAuth { proto, version }),
{
    let h = seq![0x53u8, 0x54, 0x48, 0x33, flag] + nonce@ + version;
    assert(h.take(4) =~= crate::protocol::M_HELLO@);
    assert(h.subrange(5, 37) =~= nonce@);
    assert(h.skip(37) =~= version);
    let a = seq![0x53u8, 0x54, 0x41, 0x33] + nonce@ + seq![proto] + version;
    assert(a.take(4) =~= crate::protocol::M_AUTH@);
    assert(a.subrange(4, 36) =~= nonce@);
    assert(a.skip(37) =~= version);
    let n = seq![0x53u8, 0x54, 0x4e, 0x33, proto] + version;
    assert(n.take(4) =~= crate::protocol::M_NOAUTH@);
    assert(n.take(4)[2] == 0x4e && crate::protocol::M_AUTH@[2] == 0x41);
    assert(n.skip(5) =~= version);
}

/// A message that is too short or starts otherwise is no greeting and no
/// answer.
pub proof fn law_not_ours(data: Seq<u8>)
    ensures
        data.len() < 37 || data.take(4) != seq![0x53u8, 0x54, 0x48, 0x33]
            ==> crate::handshake::hello_of(data) is None,
        data.len() < 5 || (data.take(4) != seq![0x53u8, 0x54, 0x41, 0x33] && data.take(4)
            != seq![0x53u8, 0x54, 0x4e, 0x33]) ==> crate::handshake::answer_of(data)
            == AnswerModel::Other,
        data.len() < 37 && data.len() >= 4 && data.take(4) == seq![0x53u8, 0x54, 0x41, 0x33]
            ==> crate::handshake::answer_of(data) == AnswerModel::Other,
{
    assert(crate::protocol::M_HELLO@ =~= seq![0x53u8, 0x54, 0x48, 0x33]);
    assert(crate::protocol::M_AUTH@ =~= seq![0x53u8, 0x54, 0x41, 0x33]);
    assert(crate::protocol::M_NOAUTH@ =~= seq![0x53u8, 0x54, 0x4e, 0x33]);
    if data.len() >= 4 && data.take(4) == seq![0x53u8, 0x54, 0x41, 0x33] {
        assert(data.take(4)[2] == 0x41);
        assert(crate::protocol::M_NOAUTH@[2] == 0x4e);
    }
}

/// The proof of a key is the BLAKE3 hash of the challenge under the key that
/// BLAKE3 derives from it, so it depends on both. A proof is accepted if and
/// only if its hash is that of the right one: a proof for another challenge or
/// under another key only where BLAKE3 collides.
pub proof fn law_proof_of_key(psk: Seq<char>, other: Seq<char>, nonce: Seq<u8>, old: Seq<u8>)
    ensures
        ({
            let key = crate::auth::blake3_derived_key(
                "steam-tunnel psk v1"@,
                vstd::utf8::encode_utf8(psk),
            );
            let wrong = crate::auth::blake3_derived_key(
                "steam-tunnel psk v1"@,
                vstd::utf8::encode_utf8(other),
            );
            let right = crate::auth::blake3_keyed_hash(key@, nonce);
            &&& crate::auth::psk_mac_of(psk, nonce) == right
            &&& forall|mac: Seq<u8>| #[trigger]
                crate::auth::mac_accepted(psk, nonce, mac) <==> crate::auth::blake3_hash(mac)
                    == crate::auth::blake3_hash(right@)
            &&& crate::auth::mac_accepted(psk, nonce, crate::auth::psk_mac_of(psk, old)@)
                <==> crate::auth::blake3_hash(crate::auth::blake3_keyed_hash(key@, old)@)
                == crate::auth::blake3_hash(right@)
            &&& crate::auth::mac_accepted(psk, nonce, crate::auth::psk_mac_of(other, nonce)@)
                <==> crate::auth::blake3_hash(crate::auth::blake3_keyed_hash(wrong@, nonce)@)
                == crate::auth::blake3_hash(right@)
        }),
{
}

/// Streams are always sent reliably; a datagram goes at once if and only if it
/// fits into 1150 bytes.
pub proof fn law_send_mode(len: int)
    ensures
        crate::protocol::mode_of(false, len) == crate::protocol::SendMode::Reliable,
        crate::protocol::mode_of(true, len) == crate::protocol::SendMode::Unreliable <==> len
            <= 1150,
{
}

/// The send rates that a ceiling asks for: none for 0, and otherwise the
/// ceiling, as far as it can be configured, and at least 128 KiB/s or the
/// ceiling where that is lower.
pub proof fn law_rate_values(kib: u32)
    ensures
        crate::protocol::rates_of(0) is None,
        0 < kib <= 2097151 ==> (crate::protocol::rates_of(kib) matches Some(r) && r.max == kib
            * 1024),
        kib > 2097151 ==> (crate::protocol::rates_of(kib) matches Some(r) && r.max
            == 2147483647),
        0 < kib <= 128 ==> (crate::protocol::rates_of(kib) matches Some(r) && r.min == kib * 1024),
        kib >= 128 ==> (crate::protocol::rates_of(kib) matches Some(r) && r.min == 131072),
{
}


/// A challenge is what the generator gave, unchanged, and there is none if it
/// failed.
pub proof fn law_challenge(bytes: [u8; 32])
    ensures
        crate::auth::nonce_of(true, bytes) == Some(bytes),
        crate::auth::nonce_of(false, bytes) is None,
{
}

} // verus!
