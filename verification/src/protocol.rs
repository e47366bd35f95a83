//! The wire format: handshake messages and multiplexed frames.
//!
//! One Steam connection (a tunnel) per peer and port carries any number of
//! streams. After the handshake every message is a frame: a type byte, the
//! stream id as four bytes with the most significant first, and a payload.
use vstd::prelude::*;
use vstd::string::*;

verus! {

/// The version that this side announces in the handshake.
pub const APP_VERSION: &'static str = "0.1.0";

/// Bytes read from a local TCP socket per frame.
pub const CHUNK: usize = 16384;

/// Room for one local datagram.
pub const UDP_BUF: usize = 65536;

pub const MAX_READS_PER_TICK: usize = 8;

pub const MAX_DGRAMS_PER_TICK: usize = 64;

/// Steam unreliable messages must fit in one packet.
pub const MAX_UNRELIABLE: usize = 1150;

/// Host to client: magic, flags, nonce, version.
pub const M_HELLO: [u8; 4] = [0x53, 0x54, 0x48, 0x33];

/// Client to host: magic, mac, protocol, version.
pub const M_AUTH: [u8; 4] = [0x53, 0x54, 0x41, 0x33];

/// Client to host: magic, protocol, version.
pub const M_NOAUTH: [u8; 4] = [0x53, 0x54, 0x4e, 0x33];

/// Host to client: the tunnel is open.
pub const M_OK: [u8; 4] = [0x53, 0x54, 0x4b, 0x33];

/// Stream data.
pub const F_DATA: u8 = 0;

/// One direction of a stream has ended.
pub const F_EOF: u8 = 1;

/// The client opens a stream.
pub const F_OPEN: u8 = 2;

/// A stream ended abnormally.
pub const F_CLOSE: u8 = 3;

/// Length of a frame header: the type byte and the stream id.
pub const HDR: usize = 5;

/// A stream id as four bytes, the most significant first.
pub open spec fn id_bytes(sid: u32) -> Seq<u8> {
    seq![
        (sid / 0x1000000) as u8,
        ((sid / 0x10000) % 0x100) as u8,
        ((sid / 0x100) % 0x100) as u8,
        (sid % 0x100) as u8,
    ]
}

/// The id that four bytes write.
pub open spec fn id_of(b: Seq<u8>) -> u32 {
    (b[0] * 0x1000000 + b[1] * 0x10000 + b[2] * 0x100 + b[3]) as u32
}

/// The bytes of a frame.
pub open spec fn frame_bytes(ftype: u8, sid: u32, payload: Seq<u8>) -> Seq<u8> {
    seq![ftype] + id_bytes(sid) + payload
}

/// A frame taken apart.
#[verifier::ext_equal]
pub struct FrameModel {
    pub ftype: u8,
    pub sid: u32,
    pub payload: Seq<u8>,
}

/// The frame that a message holds: none if it is shorter than a header.
pub open spec fn frame_of(data: Seq<u8>) -> Option<FrameModel> {
    if data.len() < HDR {
        None
    } else {
        Some(
            FrameModel {
                ftype: data[0],
                sid: id_of(data.subrange(1, 5)),
                payload: data.skip(5),
            },
        )
    }
}

/// The protocol byte of the handshake.
pub open spec fn proto_byte(udp: bool) -> u8 {
    if udp {
        1
    } else {
        0
    }
}

pub open spec fn version_bytes() -> Seq<u8> {
    vstd::utf8::encode_utf8(APP_VERSION@)
}

/// The host's greeting.
pub open spec fn hello_bytes(auth_required: bool, nonce: Seq<u8>) -> Seq<u8> {
    M_HELLO@ + seq![
        if auth_required {
            1u8
        } else {
            0u8
        },
    ] + nonce + version_bytes()
}

/// The client's answer where the host asked for a key.
pub open spec fn auth_bytes(mac: Seq<u8>, udp: bool) -> Seq<u8> {
    M_AUTH@ + mac + seq![proto_byte(udp)] + version_bytes()
}

/// The client's answer where it did not.
pub open spec fn noauth_bytes(udp: bool) -> Seq<u8> {
    M_NOAUTH@ + seq![proto_byte(udp)] + version_bytes()
}

pub open spec fn has_magic(data: Seq<u8>, magic: Seq<u8>) -> bool {
    data.len() >= 4 && data.take(4) == magic
}

/// How a message is handed to Steam.
#[derive(Clone, Copy, PartialEq, Eq, Structural, Debug)]
pub enum SendMode {
    /// Kept, retried and ordered by Steam.
    Reliable,
    /// One packet, sent at once, possibly lost.
    Unreliable,
}

/// How a message of `len` bytes is handed to Steam: datagrams that fit into
/// one packet go at once, everything else reliably.
pub open spec fn mode_of(udp: bool, len: int) -> SendMode {
    if udp && len <= MAX_UNRELIABLE {
        SendMode::Unreliable
    } else {
        SendMode::Reliable
    }
}

/// Send rates of a connection, in bytes per second.
#[derive(Clone, Copy, PartialEq, Eq, Structural, Debug)]
pub struct SendRates {
    pub min: i32,
    pub max: i32,
}

/// `n` KiB/s in bytes per second, at most what a rate can hold.
pub open spec fn ceiling(n: u32) -> int {
    if n * 1024 > i32::MAX {
        i32::MAX as int
    } else {
        n * 1024
    }
}

/// The rates that a configured ceiling in KiB/s asks for; none for 0. Steam
/// may slow down to 128 KiB/s, or to the ceiling where that is lower.
pub open spec fn rates_of(send_rate_kib: u32) -> Option<SendRates> {
    let rate = ceiling(send_rate_kib);
    if send_rate_kib == 0 {
        None
    } else {
        Some(
            SendRates {
                min: if rate < 128 * 1024 {
                    rate as i32
                } else {
                    131072
                },
                max: rate as i32,
            },
        )
    }
}

/// Appends `more` to `v`.
pub fn extend(v: &mut Vec<u8>, more: &[u8])
    ensures
        final(v)@ == old(v)@ + more@,
{
    v.extend_from_slice(more);
    assert(v@ =~= old(v)@ + more@);
}

/// Builds a frame.
pub fn frame(ftype: u8, sid: u32, payload: &[u8]) -> (f: Vec<u8>)
    ensures
        f@ == frame_bytes(ftype, sid, payload@),
{
    let mut f: Vec<u8> = Vec::new();
    f.push(ftype);
    f.push((sid / 0x1000000) as u8);
    f.push(((sid / 0x10000) % 0x100) as u8);
    f.push(((sid / 0x100) % 0x100) as u8);
    f.push((sid % 0x100) as u8);
    assert(f@ =~= seq![ftype] + id_bytes(sid));
    extend(&mut f, payload);
    f
}

/// Takes a message apart: type, stream id and payload.
pub fn parse_frame<'a>(data: &'a [u8]) -> (r: Option<(u8, u32, &'a [u8])>)
    ensures
        match r {
            Some(t) => frame_of(data@) == Some(
                FrameModel { ftype: t.0, sid: t.1, payload: t.2@ },
            ),
            None => frame_of(data@) is None,
        },
{
    if data.len() < HDR {
        return None;
    }
    let sid: u32 = data[1] as u32 * 0x1000000 + data[2] as u32 * 0x10000 + data[3] as u32 * 0x100
        + data[4] as u32;
    assert(data@.subrange(1, 5)[0] == data@[1]);
    assert(data@.subrange(1, 5)[1] == data@[2]);
    assert(data@.subrange(1, 5)[2] == data@[3]);
    assert(data@.subrange(1, 5)[3] == data@[4]);
    let payload = vstd::slice::slice_subrange(data, HDR, data.len());
    assert(payload@ =~= data@.skip(5));
    Some((data[0], sid, payload))
}

/// Whether `data` starts with `magic`.
pub fn starts_with_magic(data: &[u8], magic: &[u8; 4]) -> (r: bool)
    ensures
        r == has_magic(data@, magic@),
{
    if data.len() < 4 {
        return false;
    }
    let r = data[0] == magic[0] && data[1] == magic[1] && data[2] == magic[2] && data[3]
        == magic[3];
    proof {
        let t = data@.take(4);
        assert(t[0] == data@[0] && t[1] == data@[1] && t[2] == data@[2] && t[3] == data@[3]);
        if r {
            assert(t =~= magic@);
        }
    }
    r
}

/// The flags for a data message: datagrams that fit in one packet go out
/// unreliably, everything else reliably.
pub fn data_flags(udp: bool, len: usize) -> (r: SendMode)
    ensures
        r == mode_of(udp, len as int),
{
    if udp && len <= MAX_UNRELIABLE {
        SendMode::Unreliable
    } else {
        SendMode::Reliable
    }
}

/// The send rates to configure on a connection; none keeps Steam's own.
pub fn conn_options(send_rate_kib: u32) -> (r: Option<SendRates>)
    ensures
        r == rates_of(send_rate_kib),
{
    if send_rate_kib == 0 {
        return None;
    }
    let scaled: u64 = send_rate_kib as u64 * 1024;
    let rate: i32 = if scaled > 0x7fff_ffff {
        0x7fff_ffff
    } else {
        scaled as i32
    };
    let min: i32 = if rate < 128 * 1024 {
        rate
    } else {
        128 * 1024
    };
    Some(SendRates { min, max: rate })
}

/// Every ceiling but 0 gives rates that can be configured: both positive, the
/// lower one not above the upper. The upper one is the ceiling as long as it
/// can hold it, and a higher ceiling never lowers either.
pub proof fn law_rates(a: u32, b: u32)
    requires
        0 < a <= b,
    ensures
        rates_of(a) is Some,
        0 < rates_of(a)->0.min <= rates_of(a)->0.max,
        a * 1024 <= i32::MAX ==> rates_of(a)->0.max == a * 1024,
        rates_of(a)->0.min <= rates_of(b)->0.min,
        rates_of(a)->0.max <= rates_of(b)->0.max,
{
}

fn proto_of(udp: bool) -> (r: u8)
    ensures
        r == proto_byte(udp),
{
    if udp {
        1
    } else {
        0
    }
}

/// The host's greeting.
pub fn hello(auth_required: bool, nonce: &[u8; 32]) -> (r: Vec<u8>)
    ensures
        r@ == hello_bytes(auth_required, nonce@),
{
    let mut r: Vec<u8> = Vec::new();
    extend(&mut r, M_HELLO.as_slice());
    r.push(
        if auth_required {
            1
        } else {
            0
        },
    );
    extend(&mut r, nonce.as_slice());
    extend(&mut r, APP_VERSION.as_bytes());
    assert(r@ =~= hello_bytes(auth_required, nonce@));
    r
}

/// The client's answer with a proof of the key.
pub fn auth_reply(mac: &[u8; 32], udp: bool) -> (r: Vec<u8>)
    ensures
        r@ == auth_bytes(mac@, udp),
{
    let mut r: Vec<u8> = Vec::new();
    extend(&mut r, M_AUTH.as_slice());
    extend(&mut r, mac.as_slice());
    r.push(proto_of(udp));
    extend(&mut r, APP_VERSION.as_bytes());
    assert(r@ =~= auth_bytes(mac@, udp));
    r
}

/// The client's answer without one.
pub fn noauth_reply(udp: bool) -> (r: Vec<u8>)
    ensures
        r@ == noauth_bytes(udp),
{
    let mut r: Vec<u8> = Vec::new();
    extend(&mut r, M_NOAUTH.as_slice());
    r.push(proto_of(udp));
    extend(&mut r, APP_VERSION.as_bytes());
    assert(r@ =~= noauth_bytes(udp));
    r
}

proof fn lemma_id_round_trip(sid: u32)
    ensures
        id_of(id_bytes(sid)) == sid,
{
    let b = id_bytes(sid);
    assert(b[0] == sid / 0x1000000);
    assert(b[1] == (sid / 0x10000) % 0x100);
    assert(b[2] == (sid / 0x100) % 0x100);
    assert(b[3] == sid % 0x100);
}

/// A frame read back is the frame that was written.
pub proof fn law_frame_round_trip(ftype: u8, sid: u32, payload: Seq<u8>)
    ensures
        frame_of(frame_bytes(ftype, sid, payload)) == Some(FrameModel { ftype, sid, payload }),
{
    let f = frame_bytes(ftype, sid, payload);
    assert(f.subrange(1, 5) =~= id_bytes(sid));
    assert(f.skip(5) =~= payload);
    lemma_id_round_trip(sid);
}

proof fn lemma_bytes_of_number(b0: u8, b1: u8, b2: u8, b3: u8)
    ensures
        ({
            let n = (b0 * 0x1000000 + b1 * 0x10000 + b2 * 0x100 + b3) as u32;
            &&& n == b0 * 0x1000000 + b1 * 0x10000 + b2 * 0x100 + b3
            &&& n / 0x1000000 == b0
            &&& (n / 0x10000) % 0x100 == b1
            &&& (n / 0x100) % 0x100 == b2
            &&& n % 0x100 == b3
        }),
{
    let top = b0 * 0x100 + b1;
    let mid = top * 0x100 + b2;
    let n = mid * 0x100 + b3;
    assert(n / 0x100 == mid && n % 0x100 == b3);
    assert(n / 0x10000 == top);
    assert(n / 0x1000000 == b0);
}

/// Every message with a header is the frame of what it is read as.
pub proof fn law_frame_faithful(data: Seq<u8>)
    requires
        data.len() >= HDR,
    ensures
        frame_of(data) matches Some(m) && frame_bytes(m.ftype, m.sid, m.payload) == data,
{
    let m = frame_of(data)->Some_0;
    let b = data.subrange(1, 5);
    lemma_bytes_of_number(b[0], b[1], b[2], b[3]);
    assert(id_bytes(m.sid) =~= b);
    assert(frame_bytes(m.ftype, m.sid, m.payload) =~= data);
}

} // verus!
