use steam_tunnel::protocol::{frame, CHUNK, F_DATA, F_EOF, F_OPEN};
use steam_tunnel::stream::{
    elapsed, empty_frame, new_stream, CloseReason, Dir, FlowAddr, LocalRead, LocalSock, ReadEnd,
    Stream, WriteOutcome, PRE_BUF_CAP, TCP_OUT_CAP, UDP_FLOW_IDLE,
};

fn tcp(id: u32) -> Stream {
    new_stream(id, None, Some(LocalSock::Tcp), 0)
}

fn waiting(s: &Stream) -> Vec<u8> {
    s.tcp_out.iter().copied().collect()
}

#[test]
fn data_waits_in_order() {
    let mut s = tcp(1);
    s.deliver(b"one", 5);
    s.deliver(b"two", 6);
    assert_eq!(waiting(&s), b"onetwo");
    assert_eq!(s.rx_bytes, 6);
    assert_eq!(s.last_activity, 6);
    assert!(s.wrote(WriteOutcome::Wrote(4)));
    assert_eq!(waiting(&s), b"wo");
    assert!(!s.wrote(WriteOutcome::Wrote(2)));
    assert!(s.tcp_out.is_empty());
}

#[test]
fn a_full_buffer_ends_the_stream() {
    let mut s = tcp(1);
    let big = vec![0u8; TCP_OUT_CAP];
    s.deliver(&big, 0);
    assert_eq!(s.dead, None);
    s.deliver(&[1], 0);
    assert_eq!(s.dead, Some(CloseReason::BufferOverflow));
    assert_eq!(s.tcp_out.len(), TCP_OUT_CAP);
    assert_eq!(s.rx_bytes, TCP_OUT_CAP as u64 + 1);
}

#[test]
fn datagrams_are_counted_and_not_buffered() {
    let mut s = new_stream(1, None, Some(LocalSock::Udp { peer: None }), 0);
    s.deliver(b"abc", 9);
    assert!(s.tcp_out.is_empty());
    assert_eq!(s.rx_bytes, 3);
    assert_eq!(s.last_activity, 9);
}

#[test]
fn write_failures_end_the_stream() {
    let mut s = tcp(1);
    s.deliver(b"abc", 0);
    assert!(!s.wrote(WriteOutcome::WouldBlock));
    assert_eq!(s.dead, None);
    assert!(!s.wrote(WriteOutcome::Wrote(0)));
    assert_eq!(s.dead, Some(CloseReason::LocalClosed));
    let mut s = tcp(1);
    s.deliver(b"abc", 0);
    assert!(!s.wrote(WriteOutcome::Failed));
    assert_eq!(s.dead, Some(CloseReason::WriteError));
}

#[test]
fn half_close_follows_delivery() {
    let mut s = tcp(1);
    s.deliver(b"x", 0);
    s.remote_eof = true;
    assert_eq!(s.settle(Dir::In, true), (false, LocalRead::Tcp));
    s.wrote(WriteOutcome::Wrote(1));
    assert_eq!(s.settle(Dir::In, true), (true, LocalRead::Tcp));
    assert!(s.wr_shutdown);
    assert_eq!(s.settle(Dir::In, true), (false, LocalRead::Tcp));
}

#[test]
fn a_reset_stream_delivers_before_it_ends() {
    let mut s = tcp(1);
    s.deliver(b"x", 0);
    s.reset = true;
    s.tcp_eof = true;
    assert_eq!(s.settle(Dir::In, true), (false, LocalRead::Skip));
    assert_eq!(s.dead, None);
    s.wrote(WriteOutcome::Wrote(1));
    assert_eq!(s.settle(Dir::In, true), (false, LocalRead::Skip));
    assert_eq!(s.dead, Some(CloseReason::ClosedByPeer));
}

#[test]
fn what_is_read() {
    assert_eq!(tcp(1).settle(Dir::Out, false), (false, LocalRead::Skip));
    let peer = Some(FlowAddr { ip: 0x7f000001, port: 9 });
    let mut flow = new_stream(1, Some(4), Some(LocalSock::Udp { peer }), 0);
    assert_eq!(flow.settle(Dir::Out, true), (false, LocalRead::Skip));
    let mut host = new_stream(1, None, Some(LocalSock::Udp { peer: None }), 0);
    assert_eq!(host.settle(Dir::In, false), (false, LocalRead::Skip));
    assert_eq!(host.settle(Dir::In, true), (false, LocalRead::Udp));
    let mut none = new_stream(1, None, None, 0);
    assert_eq!(none.settle(Dir::In, true), (false, LocalRead::Skip));
}

#[test]
fn bytes_are_held_back_up_to_a_limit() {
    let mut s = tcp(1);
    assert!(s.hold_back(&vec![1u8; PRE_BUF_CAP]));
    assert!(!s.hold_back(&[2]));
    assert_eq!(s.dead, Some(CloseReason::HandshakeBufferOverflow));
    assert_eq!(s.pre_buf.len(), PRE_BUF_CAP);
}

#[test]
fn the_end_of_a_read() {
    let mut s = tcp(3);
    assert_eq!(s.end_read(ReadEnd::WouldBlock), None);
    assert!(!s.tcp_eof);
    assert_eq!(s.end_read(ReadEnd::Eof), None);
    assert!(s.tcp_eof);
    let mut s = tcp(3);
    s.open_sent = true;
    assert_eq!(s.end_read(ReadEnd::Eof), Some(empty_frame(F_EOF, 3)));
    let mut s = tcp(3);
    assert_eq!(s.end_read(ReadEnd::Failed), None);
    assert_eq!(s.dead, Some(CloseReason::ReadError));
}

#[test]
fn streams_end_when_both_sides_are_done() {
    let mut s = tcp(1);
    s.tcp_eof = true;
    s.conclude(false, 0);
    assert_eq!(s.dead, None);
    s.remote_eof = true;
    s.deliver(b"x", 0);
    s.conclude(false, 0);
    assert_eq!(s.dead, None);
    s.wrote(WriteOutcome::Wrote(1));
    s.conclude(false, 0);
    assert_eq!(s.dead, Some(CloseReason::Finished));
}

#[test]
fn silent_flows_expire() {
    let mut s = new_stream(1, None, Some(LocalSock::Udp { peer: None }), 10);
    s.conclude(true, 10 + UDP_FLOW_IDLE);
    assert_eq!(s.dead, None);
    s.conclude(true, 11 + UDP_FLOW_IDLE);
    assert_eq!(s.dead, Some(CloseReason::FlowIdle));
    assert_eq!(elapsed(5, 7), 0);
    assert_eq!(elapsed(7, 5), 2);
}

#[test]
fn the_first_reason_stays() {
    let mut s = tcp(1);
    s.mark_dead(CloseReason::ReadError);
    s.mark_dead(CloseReason::Finished);
    assert_eq!(s.dead, Some(CloseReason::ReadError));
    assert_eq!(CloseReason::BufferOverflow.text(), "local socket too slow, buffer overflow");
    assert_eq!(
        CloseReason::BadHello.text(),
        "bad hello (version mismatch? both sides need the same steam-tunnel release)"
    );
    assert_eq!(CloseReason::Idle.text(), "idle");
}

#[test]
fn opening_sends_what_was_held_back() {
    let mut s = tcp(2);
    let data: Vec<u8> = (0..CHUNK + 3).map(|i| i as u8).collect();
    s.hold_back(&data);
    s.end_read(ReadEnd::Eof);
    let mut out: Vec<Vec<u8>> = Vec::new();
    assert_eq!(s.activate(&mut out), data.len() as u64);
    assert_eq!(
        out,
        vec![
            empty_frame(F_OPEN, 2),
            frame(F_DATA, 2, &data[..CHUNK]),
            frame(F_DATA, 2, &data[CHUNK..]),
            empty_frame(F_EOF, 2),
        ]
    );
    assert!(s.open_sent && s.pre_buf.is_empty());
    assert_eq!(s.tx_bytes, data.len() as u64);
    assert_eq!(s.activate(&mut out), 0);
    assert_eq!(out.len(), 4);
}
