use toytcp::packet::build_packet;
use toytcp::socket::{RetransmissionQueueEntry, SockID, Socket, TcpStatus};
use toytcp::tcp::{TCPEventKind, TcpError, TCP};
use toytcp::tcpflags;
use toytcp::Ipv4Addr;

fn local() -> Ipv4Addr {
    Ipv4Addr::new(10, 0, 0, 1)
}

fn peer() -> Ipv4Addr {
    Ipv4Addr::new(10, 0, 0, 2)
}

#[test]
fn socket_new_defaults() {
    let s = Socket::new(local(), peer(), 40000, 9000, TcpStatus::SynSent);
    assert_eq!(s.local_addr, local());
    assert_eq!(s.remote_addr, peer());
    assert_eq!(s.local_port, 40000);
    assert_eq!(s.remote_port, 9000);
    assert_eq!(s.status, TcpStatus::SynSent);
    assert_eq!(s.send_param.unacked_seq, 0);
    assert_eq!(s.send_param.next, 0);
    assert_eq!(s.send_param.window, 4380);
    assert_eq!(s.recv_param.next, 0);
    assert_eq!(s.recv_param.window, 4380);
    assert!(s.retransmission_queue.is_empty());
    assert!(s.connected_connection_queue.is_empty());
    assert_eq!(s.listening_socket, None);
    assert_eq!(s.get_sock_id(), SockID(local(), peer(), 40000, 9000));
}

#[test]
fn send_tcp_packet_queues_data_segments() {
    let mut s = Socket::new(local(), peer(), 40000, 9000, TcpStatus::Established);
    let out = s.send_tcp_packet(100, 200, tcpflags::ACK | tcpflags::PSH, &vec![9, 8, 7], 42);
    assert_eq!(out.src_port, 40000);
    assert_eq!(out.dst_port, 9000);
    assert_eq!(out.seq, 100);
    assert_eq!(out.ack, 200);
    assert_eq!(out.window_size, 4380);
    assert!(out.is_correct_checksum(local(), peer()));
    assert_eq!(s.retransmission_queue.len(), 1);
    assert_eq!(s.retransmission_queue[0].transmission_count, 1);
    assert_eq!(s.retransmission_queue[0].latest_transmission_time, 42);
    assert_eq!(s.retransmission_queue[0].packet.payload, vec![9, 8, 7]);
}

#[test]
fn send_tcp_packet_never_queues_pure_ack() {
    let mut s = Socket::new(local(), peer(), 40000, 9000, TcpStatus::Established);
    let out = s.send_tcp_packet(100, 200, tcpflags::ACK, &Vec::new(), 42);
    assert_eq!(out.flag, tcpflags::ACK);
    assert!(out.payload.is_empty());
    assert!(s.retransmission_queue.is_empty());
}

#[test]
fn retransmission_queue_entry_starts_at_one() {
    let p = build_packet(local(), peer(), 1, 2, 3, 4, tcpflags::SYN, 5, &Vec::new());
    let e = RetransmissionQueueEntry::new(p, 77);
    assert_eq!(e.transmission_count, 1);
    assert_eq!(e.latest_transmission_time, 77);
    assert_eq!(e.packet.seq, 3);
}

#[test]
fn out_of_range_ack_is_ignored_in_synrcvd() {
    let mut engine = TCP::new();
    let lid = engine.listen(local(), 8080);
    let syn = build_packet(local(), peer(), 50000, 8080, 1000, 0, tcpflags::SYN, 1024, &Vec::new());
    engine.listen_handler(lid, &syn, peer(), 7000, 0);
    let cid = SockID(local(), peer(), 8080, 50000);

    // Acknowledgment below the window and above it: no transition.
    for bad_ack in [6999u32, 7002, 0, u32::MAX] {
        let ack = build_packet(
            local(),
            peer(),
            50000,
            8080,
            1001,
            bad_ack,
            tcpflags::ACK,
            1024,
            &Vec::new(),
        );
        let bytes = ack.encode();
        assert!(engine.on_segment(local(), peer(), &bytes, 1).is_none());
        let conn = engine.socket_entry(cid).expect("socket missing");
        assert_eq!(conn.status, TcpStatus::SynRcvd);
        assert_eq!(conn.send_param.unacked_seq, 7000);
        let listener = engine.socket_entry(lid).expect("listener missing");
        assert!(listener.connected_connection_queue.is_empty());
    }
}

#[test]
fn out_of_range_ack_is_ignored_in_synsent() {
    let mut engine = TCP::new();
    let (cid, syn) = engine.connect(local(), peer(), 9000, 0).expect("connect failed");
    let bad = build_packet(
        local(),
        peer(),
        9000,
        cid.2,
        3000,
        syn.seq.wrapping_add(2),
        tcpflags::SYN | tcpflags::ACK,
        2048,
        &Vec::new(),
    );
    let bytes = bad.encode();
    assert!(engine.on_segment(local(), peer(), &bytes, 1).is_none());
    let sock = engine.socket_entry(cid).expect("socket missing");
    assert_eq!(sock.status, TcpStatus::SynSent);
    assert_eq!(sock.recv_param.next, 0);
}

#[test]
fn listener_ignores_segments_with_ack_set() {
    let mut engine = TCP::new();
    let lid = engine.listen(local(), 8080);
    let bogus = build_packet(
        local(),
        peer(),
        50000,
        8080,
        1000,
        1,
        tcpflags::SYN | tcpflags::ACK,
        1024,
        &Vec::new(),
    );
    let bytes = bogus.encode();
    assert!(engine.on_segment(local(), peer(), &bytes, 0).is_none());
    assert!(engine.socket_entry(SockID(local(), peer(), 8080, 50000)).is_none());
    assert!(engine.socket_entry(lid).is_some());
}

#[test]
fn corrupted_segment_is_dropped() {
    let mut engine = TCP::new();
    let lid = engine.listen(local(), 8080);
    let syn = build_packet(local(), peer(), 50000, 8080, 1000, 0, tcpflags::SYN, 1024, &Vec::new());
    let mut bytes = syn.encode();
    bytes[4] ^= 0x01; // corrupt the sequence number
    assert!(engine.on_segment(local(), peer(), &bytes, 0).is_none());
    assert!(engine.socket_entry(SockID(local(), peer(), 8080, 50000)).is_none());
    let _ = lid;
}

#[test]
fn unowned_segment_is_dropped() {
    let mut engine = TCP::new();
    engine.listen(local(), 8080);
    let stray = build_packet(local(), peer(), 50000, 9999, 1000, 0, tcpflags::SYN, 1024, &Vec::new());
    let bytes = stray.encode();
    assert!(engine.on_segment(local(), peer(), &bytes, 0).is_none());
}

#[test]
fn accept_unknown_identity_fails() {
    let mut engine = TCP::new();
    let r = engine.accept(SockID(local(), peer(), 1, 2));
    assert_eq!(r, Err(TcpError::NoSuchSocket));
}

#[test]
fn event_slot_matches_identity_and_kind() {
    let mut engine = TCP::new();
    let a = SockID(local(), peer(), 1, 2);
    let b = SockID(local(), peer(), 3, 4);
    engine.publish_event(a, TCPEventKind::Acked);
    // A waiter without a match must not consume the slot.
    assert!(!engine.poll_event(a, TCPEventKind::ConnectionCompleted));
    assert!(!engine.poll_event(b, TCPEventKind::Acked));
    assert!(engine.poll_event(a, TCPEventKind::Acked));
    assert!(!engine.poll_event(a, TCPEventKind::Acked));
    // A publish overwrites whatever was pending.
    engine.publish_event(a, TCPEventKind::DataArrived);
    engine.publish_event(b, TCPEventKind::ConnectionClosed);
    assert!(!engine.poll_event(a, TCPEventKind::DataArrived));
    assert!(engine.poll_event(b, TCPEventKind::ConnectionClosed));
}

#[test]
fn retransmission_is_bounded_and_refreshes() {
    let mut engine = TCP::new();
    let (cid, syn) = engine.connect(local(), peer(), 9000, 0).expect("connect failed");

    // Not yet expired: sent at 0, timeout 3.
    assert!(engine.on_timer_tick(2).is_empty());

    // First four scans after expiry resend the SYN verbatim.
    let mut expected_count = 1u8;
    for now in [3u64, 6, 9, 12] {
        let out = engine.on_timer_tick(now);
        assert_eq!(out.len(), 1);
        assert_eq!(out[0].0, peer());
        assert_eq!(out[0].1.seq, syn.seq);
        assert_eq!(out[0].1.flag, tcpflags::SYN);
        expected_count += 1;
        let sock = engine.socket_entry(cid).expect("socket missing");
        assert_eq!(sock.retransmission_queue.len(), 1);
        assert_eq!(sock.retransmission_queue[0].transmission_count, expected_count);
        assert_eq!(sock.retransmission_queue[0].latest_transmission_time, now);
    }

    // The fifth expiry exhausts the attempt limit: the entry is dropped
    // as undeliverable, nothing more is sent.
    let out = engine.on_timer_tick(15);
    assert!(out.is_empty());
    let sock = engine.socket_entry(cid).expect("socket missing");
    assert!(sock.retransmission_queue.is_empty());
    assert!(engine.on_timer_tick(18).is_empty());
}

#[test]
fn fresh_entries_survive_a_scan_untouched() {
    let mut engine = TCP::new();
    let (cid, _) = engine.connect(local(), peer(), 9000, 10).expect("connect failed");
    assert!(engine.on_timer_tick(12).is_empty());
    let sock = engine.socket_entry(cid).expect("socket missing");
    assert_eq!(sock.retransmission_queue.len(), 1);
    assert_eq!(sock.retransmission_queue[0].latest_transmission_time, 10);
    assert_eq!(sock.retransmission_queue[0].transmission_count, 1);
}
