//! The wording of the log and of errors shown to the user.
use vstd::prelude::*;
use vstd::string::*;

use crate::protocol::APP_VERSION;
use crate::text::number;

verus! {

pub const SEND_RATE_UPDATED: &'static str = "Send rate updated (applies to new tunnels)";

pub const ACCEPT_FAILED: &'static str = "Failed to accept connection";

pub const NO_RANDOMNESS: &'static str = "OS random generator unavailable, dropping connection";

pub const CONNECT_FAILED: &'static str = "connect_p2p failed";

/// The name of a protocol.
pub open spec fn proto_text(udp: bool) -> Seq<char> {
    if udp {
        "udp"@
    } else {
        "tcp"@
    }
}

/// The name of a protocol.
pub fn proto_name(udp: bool) -> (r: &'static str)
    ensures
        r@ == proto_text(udp),
{
    if udp {
        "udp"
    } else {
        "tcp"
    }
}

pub open spec fn already_shared_text(port: u16, udp: bool) -> Seq<char> {
    "Port "@
        + crate::text::decimal(port as nat)
        + " is already shared as "@
        + proto_text(udp)
        + " — one protocol per port"@
}

/// A port can be shared under one protocol only.
pub fn already_shared(port: u16, udp: bool) -> (r: String)
    ensures
        r@ == already_shared_text(port, udp),
{
    let mut r = "Port ".to_owned();
    r.append(number(port as u64).as_str());
    r.append(" is already shared as ");
    r.append(proto_name(udp));
    r.append(" — one protocol per port");
    r
}

pub open spec fn sharing_text(port: u16, udp: bool, target: Seq<char>) -> Seq<char> {
    "Sharing "@
        + proto_text(udp)
        + " port "@
        + crate::text::decimal(port as nat)
        + " -> "@
        + target
}

/// A share was opened.
pub fn sharing(port: u16, udp: bool, target: &str) -> (r: String)
    ensures
        r@ == sharing_text(port, udp, target@),
{
    let mut r = "Sharing ".to_owned();
    r.append(proto_name(udp));
    r.append(" port ");
    r.append(number(port as u64).as_str());
    r.append(" -> ");
    r.append(target);
    r
}

pub open spec fn listen_failed_text(port: u16) -> Seq<char> {
    "Failed to open listen socket for port "@
        + crate::text::decimal(port as nat)
}

/// Steam refused a listen socket.
pub fn listen_failed(port: u16) -> (r: String)
    ensures
        r@ == listen_failed_text(port),
{
    let mut r = "Failed to open listen socket for port ".to_owned();
    r.append(number(port as u64).as_str());
    r
}

pub open spec fn unshared_text(port: u16) -> Seq<char> {
    "Stopped sharing port "@
        + crate::text::decimal(port as nat)
}

/// A share was removed.
pub fn unshared(port: u16) -> (r: String)
    ensures
        r@ == unshared_text(port),
{
    let mut r = "Stopped sharing port ".to_owned();
    r.append(number(port as u64).as_str());
    r
}

pub open spec fn mapping_tcp_text(local_port: u16, peer_name: Seq<char>, remote_port: u16) -> Seq<char> {
    "Mapping localhost:"@
        + crate::text::decimal(local_port as nat)
        + " -> "@
        + peer_name
        + ":"@
        + crate::text::decimal(remote_port as nat)
}

/// A TCP mapping was added.
pub fn mapping_tcp(local_port: u16, peer_name: &str, remote_port: u16) -> (r: String)
    ensures
        r@ == mapping_tcp_text(local_port, peer_name@, remote_port),
{
    let mut r = "Mapping localhost:".to_owned();
    r.append(number(local_port as u64).as_str());
    r.append(" -> ");
    r.append(peer_name);
    r.append(":");
    r.append(number(remote_port as u64).as_str());
    r
}

pub open spec fn mapping_udp_text(local_port: u16, peer_name: Seq<char>, remote_port: u16) -> Seq<char> {
    "Mapping localhost:"@
        + crate::text::decimal(local_port as nat)
        + " -> "@
        + peer_name
        + ":"@
        + crate::text::decimal(remote_port as nat)
        + " (udp)"@
}

/// A UDP mapping was added.
pub fn mapping_udp(local_port: u16, peer_name: &str, remote_port: u16) -> (r: String)
    ensures
        r@ == mapping_udp_text(local_port, peer_name@, remote_port),
{
    let mut r = "Mapping localhost:".to_owned();
    r.append(number(local_port as u64).as_str());
    r.append(" -> ");
    r.append(peer_name);
    r.append(":");
    r.append(number(remote_port as u64).as_str());
    r.append(" (udp)");
    r
}

pub open spec fn bind_failed_text(local_port: u16, error: Seq<char>) -> Seq<char> {
    "Cannot bind localhost:"@
        + crate::text::decimal(local_port as nat)
        + ": "@
        + error
}

/// A local TCP port could not be bound.
pub fn bind_failed(local_port: u16, error: &str) -> (r: String)
    ensures
        r@ == bind_failed_text(local_port, error@),
{
    let mut r = "Cannot bind localhost:".to_owned();
    r.append(number(local_port as u64).as_str());
    r.append(": ");
    r.append(error);
    r
}

pub open spec fn bind_udp_failed_text(local_port: u16, error: Seq<char>) -> Seq<char> {
    "Cannot bind udp localhost:"@
        + crate::text::decimal(local_port as nat)
        + ": "@
        + error
}

/// A local UDP port could not be bound.
pub fn bind_udp_failed(local_port: u16, error: &str) -> (r: String)
    ensures
        r@ == bind_udp_failed_text(local_port, error@),
{
    let mut r = "Cannot bind udp localhost:".to_owned();
    r.append(number(local_port as u64).as_str());
    r.append(": ");
    r.append(error);
    r
}

pub open spec fn mapping_removed_text(id: u64) -> Seq<char> {
    "Mapping "@
        + crate::text::decimal(id as nat)
        + " removed"@
}

/// A mapping was removed.
pub fn mapping_removed(id: u64) -> (r: String)
    ensures
        r@ == mapping_removed_text(id),
{
    let mut r = "Mapping ".to_owned();
    r.append(number(id).as_str());
    r.append(" removed");
    r
}

pub open spec fn invite_sent_text(port: u16, name: Seq<char>) -> Seq<char> {
    "Steam invite for port "@
        + crate::text::decimal(port as nat)
        + " sent to "@
        + name
}

/// An invite went out.
pub fn invite_sent(port: u16, name: &str) -> (r: String)
    ensures
        r@ == invite_sent_text(port, name@),
{
    let mut r = "Steam invite for port ".to_owned();
    r.append(number(port as u64).as_str());
    r.append(" sent to ");
    r.append(name);
    r
}

pub open spec fn invited_text(from_name: Seq<char>, port: u16) -> Seq<char> {
    from_name
        + " invites you to connect to their port "@
        + crate::text::decimal(port as nat)
}

/// An invite came in.
pub fn invited(from_name: &str, port: u16) -> (r: String)
    ensures
        r@ == invited_text(from_name@, port),
{
    let mut r = from_name.to_owned();
    r.append(" invites you to connect to their port ");
    r.append(number(port as u64).as_str());
    r
}

pub open spec fn rejected_text(who: Seq<char>) -> Seq<char> {
    "Rejected connection from "@
        + who
        + " (not allowed)"@
}

/// A peer was turned away.
pub fn rejected(who: &str) -> (r: String)
    ensures
        r@ == rejected_text(who@),
{
    let mut r = "Rejected connection from ".to_owned();
    r.append(who);
    r.append(" (not allowed)");
    r
}

pub open spec fn incoming_text(peer_name: Seq<char>, port: u16) -> Seq<char> {
    "Incoming tunnel from "@
        + peer_name
        + " to port "@
        + crate::text::decimal(port as nat)
}

/// A peer connected to a shared port.
pub fn incoming(peer_name: &str, port: u16) -> (r: String)
    ensures
        r@ == incoming_text(peer_name@, port),
{
    let mut r = "Incoming tunnel from ".to_owned();
    r.append(peer_name);
    r.append(" to port ");
    r.append(number(port as u64).as_str());
    r
}

pub open spec fn opening_text(peer_name: Seq<char>, remote_port: u16) -> Seq<char> {
    "Opening tunnel to "@
        + peer_name
        + ":"@
        + crate::text::decimal(remote_port as nat)
        + " for local client"@
}

/// A local client waits for a tunnel.
pub fn opening(peer_name: &str, remote_port: u16) -> (r: String)
    ensures
        r@ == opening_text(peer_name@, remote_port),
{
    let mut r = "Opening tunnel to ".to_owned();
    r.append(peer_name);
    r.append(":");
    r.append(number(remote_port as u64).as_str());
    r.append(" for local client");
    r
}

pub open spec fn tunnel_closed_text(id: u64, reason: Seq<char>) -> Seq<char> {
    "Tunnel "@
        + crate::text::decimal(id as nat)
        + " closed: "@
        + reason
}

/// A tunnel ended.
pub fn tunnel_closed(id: u64, reason: &str) -> (r: String)
    ensures
        r@ == tunnel_closed_text(id, reason@),
{
    let mut r = "Tunnel ".to_owned();
    r.append(number(id).as_str());
    r.append(" closed: ");
    r.append(reason);
    r
}

pub open spec fn stream_open_text(id: u64, sid: u32, target: Seq<char>) -> Seq<char> {
    "Tunnel "@
        + crate::text::decimal(id as nat)
        + ": stream "@
        + crate::text::decimal(sid as nat)
        + " -> "@
        + target
        + " open"@
}

/// The host opened a stream.
pub fn stream_open(id: u64, sid: u32, target: &str) -> (r: String)
    ensures
        r@ == stream_open_text(id, sid, target@),
{
    let mut r = "Tunnel ".to_owned();
    r.append(number(id).as_str());
    r.append(": stream ");
    r.append(number(sid as u64).as_str());
    r.append(" -> ");
    r.append(target);
    r.append(" open");
    r
}

pub open spec fn stream_failed_text(id: u64, sid: u32, error: Seq<char>) -> Seq<char> {
    "Tunnel "@
        + crate::text::decimal(id as nat)
        + ": stream "@
        + crate::text::decimal(sid as nat)
        + " failed: "@
        + error
}

/// The host could not open a stream.
pub fn stream_failed(id: u64, sid: u32, error: &str) -> (r: String)
    ensures
        r@ == stream_failed_text(id, sid, error@),
{
    let mut r = "Tunnel ".to_owned();
    r.append(number(id).as_str());
    r.append(": stream ");
    r.append(number(sid as u64).as_str());
    r.append(" failed: ");
    r.append(error);
    r
}

pub open spec fn stream_closed_text(id: u64, sid: u32, reason: Seq<char>) -> Seq<char> {
    "Tunnel "@
        + crate::text::decimal(id as nat)
        + ": stream "@
        + crate::text::decimal(sid as nat)
        + " closed: "@
        + reason
}

/// A stream ended.
pub fn stream_closed(id: u64, sid: u32, reason: &str) -> (r: String)
    ensures
        r@ == stream_closed_text(id, sid, reason@),
{
    let mut r = "Tunnel ".to_owned();
    r.append(number(id).as_str());
    r.append(": stream ");
    r.append(number(sid as u64).as_str());
    r.append(" closed: ");
    r.append(reason);
    r
}

pub open spec fn peer_runs_text(id: u64, version: Seq<char>) -> Seq<char> {
    "Tunnel "@
        + crate::text::decimal(id as nat)
        + ": peer runs v"@
        + version
        + " (this side: v"@
        + APP_VERSION@
        + ")"@
}

/// The peer announced another version.
pub fn peer_runs(id: u64, version: &str) -> (r: String)
    ensures
        r@ == peer_runs_text(id, version@),
{
    let mut r = "Tunnel ".to_owned();
    r.append(number(id).as_str());
    r.append(": peer runs v");
    r.append(version);
    r.append(" (this side: v");
    r.append(APP_VERSION);
    r.append(")");
    r
}

pub open spec fn auth_failed_text(id: u64) -> Seq<char> {
    "Tunnel "@
        + crate::text::decimal(id as nat)
        + ": auth failed, dropping"@
}

/// The client did not prove the key.
pub fn auth_failed(id: u64) -> (r: String)
    ensures
        r@ == auth_failed_text(id),
{
    let mut r = "Tunnel ".to_owned();
    r.append(number(id).as_str());
    r.append(": auth failed, dropping");
    r
}

pub open spec fn protocol_mismatch_text(id: u64, port: u16, udp: bool) -> Seq<char> {
    "Tunnel "@
        + crate::text::decimal(id as nat)
        + ": protocol mismatch — port "@
        + crate::text::decimal(port as nat)
        + " is "@
        + proto_text(udp)
        + " here"@
}

/// The client asked for the other protocol.
pub fn protocol_mismatch(id: u64, port: u16, udp: bool) -> (r: String)
    ensures
        r@ == protocol_mismatch_text(id, port, udp),
{
    let mut r = "Tunnel ".to_owned();
    r.append(number(id).as_str());
    r.append(": protocol mismatch — port ");
    r.append(number(port as u64).as_str());
    r.append(" is ");
    r.append(proto_name(udp));
    r.append(" here");
    r
}

pub open spec fn forwarding_text(id: u64, target: Seq<char>) -> Seq<char> {
    "Tunnel "@
        + crate::text::decimal(id as nat)
        + ": open, forwarding to "@
        + target
}

/// The host accepted a tunnel.
pub fn forwarding(id: u64, target: &str) -> (r: String)
    ensures
        r@ == forwarding_text(id, target@),
{
    let mut r = "Tunnel ".to_owned();
    r.append(number(id).as_str());
    r.append(": open, forwarding to ");
    r.append(target);
    r
}

pub open spec fn psk_missing_text(id: u64) -> Seq<char> {
    "Tunnel "@
        + crate::text::decimal(id as nat)
        + ": host requires a pre-shared key, none configured"@
}

/// The host asks for a key that this side lacks.
pub fn psk_missing(id: u64) -> (r: String)
    ensures
        r@ == psk_missing_text(id),
{
    let mut r = "Tunnel ".to_owned();
    r.append(number(id).as_str());
    r.append(": host requires a pre-shared key, none configured");
    r
}

pub open spec fn established_text(id: u64) -> Seq<char> {
    "Tunnel "@
        + crate::text::decimal(id as nat)
        + ": established"@
}

/// The client's tunnel is open.
pub fn established(id: u64) -> (r: String)
    ensures
        r@ == established_text(id),
{
    let mut r = "Tunnel ".to_owned();
    r.append(number(id).as_str());
    r.append(": established");
    r
}

pub open spec fn unresolved_text(target: Seq<char>) -> Seq<char> {
    "cannot resolve target "@
        + target
}

/// A forward target has no address.
pub fn unresolved(target: &str) -> (r: String)
    ensures
        r@ == unresolved_text(target@),
{
    let mut r = "cannot resolve target ".to_owned();
    r.append(target);
    r
}

pub open spec fn udp_socket_error_text(error: Seq<char>) -> Seq<char> {
    "udp socket error: "@
        + error
}

/// A datagram socket could not be made.
pub fn udp_socket_error(error: &str) -> (r: String)
    ensures
        r@ == udp_socket_error_text(error@),
{
    let mut r = "udp socket error: ".to_owned();
    r.append(error);
    r
}

pub open spec fn unreachable_target_text(target: Seq<char>, error: Seq<char>) -> Seq<char> {
    "target "@
        + target
        + " unreachable: "@
        + error
}

/// A forward target refused a connection.
pub fn unreachable_target(target: &str, error: &str) -> (r: String)
    ensures
        r@ == unreachable_target_text(target@, error@),
{
    let mut r = "target ".to_owned();
    r.append(target);
    r.append(" unreachable: ");
    r.append(error);
    r
}

pub open spec fn steam_unavailable_text(error: Seq<char>) -> Seq<char> {
    "Steam init failed: "@
        + error
        + ". Is the Steam client running and signed in?"@
}

/// The Steam client could not be reached.
pub fn steam_unavailable(error: &str) -> (r: String)
    ensures
        r@ == steam_unavailable_text(error@),
{
    let mut r = "Steam init failed: ".to_owned();
    r.append(error);
    r.append(". Is the Steam client running and signed in?");
    r
}

} // verus!
