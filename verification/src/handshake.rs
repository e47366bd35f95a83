//! The handshake as decisions on messages: what a greeting or an answer
//! holds, and what the host makes of an answer.
use vstd::prelude::*;

use crate::protocol::{starts_with_magic, M_AUTH, M_HELLO, M_NOAUTH, M_OK};

verus! {

/// What a greeting holds.
#[verifier::ext_equal]
pub struct HelloModel {
    pub auth_required: bool,
    pub nonce: Seq<u8>,
    pub version: Seq<u8>,
}

/// The greeting that a message holds, if it is one.
pub open spec fn hello_of(data: Seq<u8>) -> Option<HelloModel> {
    if data.len() < 37 || !crate::protocol::has_magic(data, M_HELLO@) {
        None
    } else {
        Some(
            HelloModel {
                auth_required: data[4] == 1,
                nonce: data.subrange(5, 37),
                version: data.skip(37),
            },
        )
    }
}

/// What a client's answer holds.
#[verifier::ext_equal]
pub enum AnswerModel {
    /// A proof of the key.
    Auth { mac: Seq<u8>, proto: u8, version: Seq<u8> },
    /// No proof.
    NoAuth { proto: u8, version: Seq<u8> },
    /// Not an answer.
    Other,
}

/// The answer that a message holds.
pub open spec fn answer_of(data: Seq<u8>) -> AnswerModel {
    if data.len() >= 37 && crate::protocol::has_magic(data, M_AUTH@) {
        AnswerModel::Auth { mac: data.subrange(4, 36), proto: data[36], version: data.skip(37) }
    } else if data.len() >= 5 && crate::protocol::has_magic(data, M_NOAUTH@) {
        AnswerModel::NoAuth { proto: data[4], version: data.skip(5) }
    } else {
        AnswerModel::Other
    }
}

/// What the host makes of an answer.
#[derive(Clone, Copy, PartialEq, Eq, Structural, Debug)]
pub enum Verdict {
    Accepted,
    AuthFailed,
    ProtocolMismatch,
}

/// Whether an answer proves enough: with a key configured only a proof that
/// holds, without one only an answer that offers none.
pub open spec fn authenticated(psk_set: bool, proof_holds: bool, answer: AnswerModel) -> bool {
    match answer {
        AnswerModel::Auth { .. } => psk_set && proof_holds,
        AnswerModel::NoAuth { .. } => !psk_set,
        AnswerModel::Other => false,
    }
}

/// The protocol byte of an answer.
pub open spec fn answer_proto(answer: AnswerModel) -> Option<u8> {
    match answer {
        AnswerModel::Auth { mac, proto, version } => Some(proto),
        AnswerModel::NoAuth { proto, version } => Some(proto),
        AnswerModel::Other => None,
    }
}

/// The version bytes of an answer.
pub open spec fn answer_version(answer: AnswerModel) -> Option<Seq<u8>> {
    match answer {
        AnswerModel::Auth { mac, proto, version } => Some(version),
        AnswerModel::NoAuth { proto, version } => Some(version),
        AnswerModel::Other => None,
    }
}

/// The host accepts an answer that is authenticated and asks for the protocol
/// that the share carries.
pub open spec fn verdict_on(
    psk_set: bool,
    proof_holds: bool,
    answer: AnswerModel,
    udp: bool,
) -> Verdict {
    if !authenticated(psk_set, proof_holds, answer) {
        Verdict::AuthFailed
    } else if answer_proto(answer) != Some(crate::protocol::proto_byte(udp)) {
        Verdict::ProtocolMismatch
    } else {
        Verdict::Accepted
    }
}

/// A greeting taken apart.
pub struct Hello<'a> {
    pub auth_required: bool,
    pub nonce: [u8; 32],
    pub version: &'a [u8],
}

impl<'a> View for Hello<'a> {
    type V = HelloModel;

    open spec fn view(&self) -> HelloModel {
        HelloModel {
            auth_required: self.auth_required,
            nonce: self.nonce@,
            version: self.version@,
        }
    }
}

/// A client's answer taken apart.
pub enum Answer<'a> {
    Auth { mac: &'a [u8], proto: u8, version: &'a [u8] },
    NoAuth { proto: u8, version: &'a [u8] },
    Other,
}

impl<'a> View for Answer<'a> {
    type V = AnswerModel;

    open spec fn view(&self) -> AnswerModel {
        match *self {
            Answer::Auth { mac, proto, version } => AnswerModel::Auth {
                mac: mac@,
                proto,
                version: version@,
            },
            Answer::NoAuth { proto, version } => AnswerModel::NoAuth { proto, version: version@ },
            Answer::Other => AnswerModel::Other,
        }
    }
}

/// The 32 bytes of `data` from `at` on.
fn bytes32(data: &[u8], at: usize) -> (r: [u8; 32])
    requires
        at + 32 <= data@.len(),
    ensures
        r@ == data@.subrange(at as int, at + 32),
{
    let mut r: [u8; 32] = [0u8; 32];
    let mut i: usize = 0;
    while i < 32
        invariant
            i <= 32,
            at + 32 <= data@.len(),
            forall|j: int| 0 <= j < i ==> r@[j] == data@[at + j],
        decreases 32 - i,
    {
        assert(at + i < data.len());
        r[i] = data[at + i];
        i = i + 1;
    }
    assert(r@ =~= data@.subrange(at as int, at + 32));
    r
}

/// Reads a host's greeting.
pub fn parse_hello<'a>(data: &'a [u8]) -> (r: Option<Hello<'a>>)
    ensures
        match r {
            Some(h) => hello_of(data@) == Some(h@),
            None => hello_of(data@) is None,
        },
{
    if data.len() < 37 || !starts_with_magic(data, &M_HELLO) {
        return None;
    }
    let nonce = bytes32(data, 5);
    let version = vstd::slice::slice_subrange(data, 37, data.len());
    assert(version@ =~= data@.skip(37));
    Some(Hello { auth_required: data[4] == 1, nonce, version })
}

/// Reads a client's answer.
pub fn parse_answer<'a>(data: &'a [u8]) -> (r: Answer<'a>)
    ensures
        r@ == answer_of(data@),
{
    if data.len() >= 37 && starts_with_magic(data, &M_AUTH) {
        let mac = vstd::slice::slice_subrange(data, 4, 36);
        let version = vstd::slice::slice_subrange(data, 37, data.len());
        assert(version@ =~= data@.skip(37));
        Answer::Auth { mac, proto: data[36], version }
    } else if data.len() >= 5 && starts_with_magic(data, &M_NOAUTH) {
        let version = vstd::slice::slice_subrange(data, 5, data.len());
        assert(version@ =~= data@.skip(5));
        Answer::NoAuth { proto: data[4], version }
    } else {
        Answer::Other
    }
}

/// What the host makes of an answer, given whether its proof holds.
pub fn judge(psk_set: bool, proof_holds: bool, answer: &Answer, udp: bool) -> (r: Verdict)
    ensures
        r == verdict_on(psk_set, proof_holds, answer@, udp),
{
    let want: u8 = if udp {
        1
    } else {
        0
    };
    match answer {
        Answer::Auth { mac: _, proto, version: _ } => {
            if !(psk_set && proof_holds) {
                Verdict::AuthFailed
            } else if *proto != want {
                Verdict::ProtocolMismatch
            } else {
                Verdict::Accepted
            }
        },
        Answer::NoAuth { proto, version: _ } => {
            if psk_set {
                Verdict::AuthFailed
            } else if *proto != want {
                Verdict::ProtocolMismatch
            } else {
                Verdict::Accepted
            }
        },
        Answer::Other => Verdict::AuthFailed,
    }
}

/// Whether a message is the host's go-ahead.
pub fn is_ok(data: &[u8]) -> (r: bool)
    ensures
        r == (data@ == M_OK@),
{
    let r = data.len() == 4 && starts_with_magic(data, &M_OK);
    assert(data@.len() == 4 ==> data@.take(4) =~= data@);
    r
}

/// A client reads from a greeting the challenge that the host wrote into it.
pub proof fn law_hello_round_trip(auth_required: bool, nonce: [u8; 32])
    ensures
        hello_of(crate::protocol::hello_bytes(auth_required, nonce@)) == Some(
            HelloModel {
                auth_required,
                nonce: nonce@,
                version: crate::protocol::version_bytes(),
            },
        ),
{
    let d = crate::protocol::hello_bytes(auth_required, nonce@);
    assert(d.take(4) =~= M_HELLO@);
    assert(d.subrange(5, 37) =~= nonce@);
    assert(d.skip(37) =~= crate::protocol::version_bytes());
}

/// A host reads from a client's answer the proof, the protocol and the
/// version that the client wrote into it.
pub proof fn law_answer_round_trip(mac: [u8; 32], udp: bool)
    ensures
        answer_of(crate::protocol::auth_bytes(mac@, udp)) == (AnswerModel::Auth {
            mac: mac@,
            proto: crate::protocol::proto_byte(udp),
            version: crate::protocol::version_bytes(),
        }),
        answer_of(crate::protocol::noauth_bytes(udp)) == (AnswerModel::NoAuth {
            proto: crate::protocol::proto_byte(udp),
            version: crate::protocol::version_bytes(),
        }),
{
    let d = crate::protocol::auth_bytes(mac@, udp);
    assert(d.take(4) =~= M_AUTH@);
    assert(d.subrange(4, 36) =~= mac@);
    assert(d.skip(37) =~= crate::protocol::version_bytes());
    let n = crate::protocol::noauth_bytes(udp);
    assert(n.take(4) =~= M_NOAUTH@);
    assert(M_NOAUTH@[2] != M_AUTH@[2]);
    assert(n.skip(5) =~= crate::protocol::version_bytes());
}

} // verus!
