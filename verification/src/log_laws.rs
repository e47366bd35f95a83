//! What the lines of the log say: which numbers, names and reasons, and where.
use vstd::prelude::*;

verus! {

/// A number as the log writes it.
pub open spec fn num(n: nat) -> Seq<char> {
    crate::text::decimal(n)
}

/// Whether a line starts with one text and ends with another.
pub open spec fn runs_from_to(line: Seq<char>, a: Seq<char>, b: Seq<char>) -> bool {
    exists|between: Seq<char>| line == #[trigger] (a + between + b)
}

proof fn lemma_runs(a: Seq<char>, between: Seq<char>, b: Seq<char>)
    ensures
        runs_from_to(a + between + b, a, b),
{
}

/// What is said of shares: the port, the protocol and the target.
pub proof fn law_share_lines(port: u16, udp: bool, target: Seq<char>)
    ensures
        crate::log::sharing_text(port, false, target) == "Sharing tcp port "@ + num(port as nat)
            + " -> "@ + target,
        crate::log::sharing_text(port, true, target) == "Sharing udp port "@ + num(port as nat)
            + " -> "@ + target,
        runs_from_to(
            crate::log::already_shared_text(port, true),
            "Port "@ + num(port as nat),
            "udp"@ + " — one protocol per port"@,
        ),
        runs_from_to(
            crate::log::already_shared_text(port, false),
            "Port "@ + num(port as nat),
            "tcp"@ + " — one protocol per port"@,
        ),
        crate::log::listen_failed_text(port) == "Failed to open listen socket for port "@ + num(
            port as nat,
        ),
        crate::log::unshared_text(port) == "Stopped sharing port "@ + num(port as nat),
{
    reveal_strlit("Sharing tcp port ");
    reveal_strlit("Sharing udp port ");
    reveal_strlit("Sharing ");
    reveal_strlit(" port ");
    reveal_strlit("tcp");
    reveal_strlit("udp");
    assert("Sharing "@ + "tcp"@ + " port "@ =~= "Sharing tcp port "@);
    assert("Sharing "@ + "udp"@ + " port "@ =~= "Sharing udp port "@);
    lemma_runs(
        "Port "@ + num(port as nat),
        " is already shared as "@,
        "udp"@ + " — one protocol per port"@,
    );
    lemma_runs(
        "Port "@ + num(port as nat),
        " is already shared as "@,
        "tcp"@ + " — one protocol per port"@,
    );
    assert(crate::log::already_shared_text(port, true) =~= "Port "@ + num(port as nat)
        + " is already shared as "@ + ("udp"@ + " — one protocol per port"@));
    assert(crate::log::already_shared_text(port, false) =~= "Port "@ + num(port as nat)
        + " is already shared as "@ + ("tcp"@ + " — one protocol per port"@));
}

/// What is said of mappings: the local port first, then the peer and its port.
pub proof fn law_mapping_lines(local: u16, name: Seq<char>, remote: u16, id: u64, error: Seq<char>)
    ensures
        crate::log::mapping_tcp_text(local, name, remote) == "Mapping localhost:"@ + num(
            local as nat,
        ) + " -> "@ + name + ":"@ + num(remote as nat),
        crate::log::mapping_udp_text(local, name, remote) == crate::log::mapping_tcp_text(
            local,
            name,
            remote,
        ) + " (udp)"@,
        crate::log::mapping_removed_text(id) == "Mapping "@ + num(id as nat) + " removed"@,
        crate::log::bind_failed_text(local, error) == "Cannot bind localhost:"@ + num(local as nat)
            + ": "@ + error,
        crate::log::bind_udp_failed_text(local, error) == "Cannot bind udp localhost:"@ + num(
            local as nat,
        ) + ": "@ + error,
        crate::log::opening_text(name, remote) == "Opening tunnel to "@ + name + ":"@ + num(
            remote as nat,
        ) + " for local client"@,
{
}

/// What is said of invitations and of peers that connect: who, and which port.
pub proof fn law_peer_lines(name: Seq<char>, port: u16)
    ensures
        crate::log::invite_sent_text(port, name) == "Steam invite for port "@ + num(port as nat)
            + " sent to "@ + name,
        crate::log::invited_text(name, port) == name + " invites you to connect to their port "@
            + num(port as nat),
        crate::log::incoming_text(name, port) == "Incoming tunnel from "@ + name + " to port "@
            + num(port as nat),
        crate::log::rejected_text(name) == "Rejected connection from "@ + name + " (not allowed)"@,
{
}

/// What is said of a tunnel starts with its id, and of a stream with the ids of
/// its tunnel and its own; then comes what happened, to what and why.
pub proof fn law_tunnel_lines(
    id: u64,
    sid: u32,
    port: u16,
    target: Seq<char>,
    why: Seq<char>,
    version: Seq<char>,
)
    ensures
        ({
            let tunnel = "Tunnel "@ + num(id as nat);
            let stream = tunnel + ": stream "@ + num(sid as nat);
            &&& crate::log::tunnel_closed_text(id, why) == tunnel + " closed: "@ + why
            &&& crate::log::stream_open_text(id, sid, target) == stream + " -> "@ + target
                + " open"@
            &&& crate::log::stream_failed_text(id, sid, why) == stream + " failed: "@ + why
            &&& crate::log::stream_closed_text(id, sid, why) == stream + " closed: "@ + why
            &&& crate::log::peer_runs_text(id, version) == tunnel + ": peer runs v"@ + version
                + " (this side: v"@ + "0.1.0"@ + ")"@
            &&& crate::log::auth_failed_text(id) == tunnel + ": auth failed, dropping"@
            &&& runs_from_to(
                crate::log::protocol_mismatch_text(id, port, true),
                tunnel,
                num(port as nat) + " is "@ + "udp"@ + " here"@,
            )
            &&& runs_from_to(
                crate::log::protocol_mismatch_text(id, port, false),
                tunnel,
                num(port as nat) + " is "@ + "tcp"@ + " here"@,
            )
            &&& crate::log::forwarding_text(id, target) == tunnel + ": open, forwarding to "@
                + target
            &&& crate::log::psk_missing_text(id) == tunnel
                + ": host requires a pre-shared key, none configured"@
            &&& crate::log::established_text(id) == tunnel + ": established"@
        }),
        crate::log::unresolved_text(target) == "cannot resolve target "@ + target,
        crate::log::unreachable_target_text(target, why) == "target "@ + target
            + " unreachable: "@ + why,
        crate::log::udp_socket_error_text(why) == "udp socket error: "@ + why,
{
    let tunnel = "Tunnel "@ + num(id as nat);
    let between = ": protocol mismatch — port "@;
    let u = num(port as nat) + " is "@ + "udp"@ + " here"@;
    let t = num(port as nat) + " is "@ + "tcp"@ + " here"@;
    lemma_runs(tunnel, between, u);
    lemma_runs(tunnel, between, t);
    assert(crate::log::protocol_mismatch_text(id, port, true) =~= tunnel + between + u);
    assert(crate::log::protocol_mismatch_text(id, port, false) =~= tunnel + between + t);
}

/// The lines that say the same each time.
pub proof fn law_fixed_lines()
    ensures
        crate::log::SEND_RATE_UPDATED@ == "Send rate updated (applies to new tunnels)"@,
        crate::log::ACCEPT_FAILED@ == "Failed to accept connection"@,
        crate::log::NO_RANDOMNESS@ == "OS random generator unavailable, dropping connection"@,
        crate::log::CONNECT_FAILED@ == "connect_p2p failed"@,
        crate::report::RELAY_STATUS@ == "relay access requested"@,
        crate::state::CONFIG_PATH@ == "steam-tunnel.json"@,
{
}

/// The limits and periods that are kept to, in bytes, pieces and nanoseconds.
pub proof fn law_limits()
    ensures
        crate::protocol::CHUNK == 16384,
        crate::protocol::UDP_BUF == 65536,
        crate::protocol::MAX_READS_PER_TICK == 8,
        crate::protocol::MAX_DGRAMS_PER_TICK == 64,
        crate::protocol::MAX_UNRELIABLE == 1150,
        crate::protocol::HDR == 5,
        crate::detect::FIRST_PORT == 1024,
        crate::engine::MAX_UDP_FLOWS == 64,
        crate::engine::UDP_RESPAWN_DELAY == 3_000_000_000,
        crate::report::APP_ID == 480,
        crate::report::HEALTH_PERIOD == 500_000_000,
        crate::report::STATS_PERIOD == 1_000_000_000,
        crate::report::FRIENDS_PERIOD == 5_000_000_000,
        crate::state::LOG_KEEP == 200,
        crate::tunnel::PING_UNKNOWN == -1,
        crate::tunnel::QUALITY_UNKNOWN == 0xbf80_0000,
{
}

} // verus!
