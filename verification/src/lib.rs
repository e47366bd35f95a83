//! Tunnels local TCP and UDP ports to Steam friends: the wire protocol, the
//! state of tunnels and mappings, the web API and the detection of listening
//! programs, as functions of what the network and the system answered.
pub mod auth;
pub mod delivery;
pub mod detect;
pub mod detect_laws;
pub mod engine;
pub mod engine_laws;
pub mod half_close;
pub mod handshake;
pub mod http;
pub mod json;
pub mod laws;
pub mod lists;
pub mod log;
pub mod log_laws;
pub mod order;
pub mod protocol;
pub mod report;
pub mod report_laws;
pub mod run;
pub mod state;
pub mod state_laws;
pub mod stream;
pub mod text;
pub mod text_laws;
pub mod tunnel;
pub mod tunnel_laws;
pub mod turn;
pub mod turn_laws;
pub mod web_laws;
pub mod wire_laws;
