use toytcp::packet::build_packet;
use toytcp::socket::{SockID, TcpStatus};
use toytcp::tcp::{TCPEventKind, TcpError, TCP};
use toytcp::tcpflags;
use toytcp::Ipv4Addr;

const LISTEN_ADDR: (u8, u8, u8, u8) = (10, 0, 0, 1);
const PEER_ADDR: (u8, u8, u8, u8) = (10, 0, 0, 2);

fn listen_addr() -> Ipv4Addr {
    Ipv4Addr::new(LISTEN_ADDR.0, LISTEN_ADDR.1, LISTEN_ADDR.2, LISTEN_ADDR.3)
}

fn peer_addr() -> Ipv4Addr {
    Ipv4Addr::new(PEER_ADDR.0, PEER_ADDR.1, PEER_ADDR.2, PEER_ADDR.3)
}

/// Scenario: a listener on (10.0.0.1, 8080) receives SYN(seq=1000); the
/// spawned socket has recv.next 1001, recv.initial 1000, status SYN-RCVD,
/// and a SYN+ACK with ack 1001 goes out.
#[test]
fn passive_open_spawns_synrcvd_socket() {
    let mut engine = TCP::new();
    let lid = engine.listen(listen_addr(), 8080);
    assert_eq!(lid, SockID(listen_addr(), Ipv4Addr::new(0, 0, 0, 0), 8080, 0));

    let syn = build_packet(
        listen_addr(),
        peer_addr(),
        50000,
        8080,
        1000,
        0,
        tcpflags::SYN,
        1024,
        &Vec::new(),
    );
    let reply = engine
        .listen_handler(lid, &syn, peer_addr(), 7000, 10)
        .expect("no SYN+ACK transmitted");
    assert_eq!(reply.src_port, 8080);
    assert_eq!(reply.dst_port, 50000);
    assert_eq!(reply.seq, 7000);
    assert_eq!(reply.ack, 1001);
    assert_eq!(reply.flag, tcpflags::SYN | tcpflags::ACK);

    let cid = SockID(listen_addr(), peer_addr(), 8080, 50000);
    let conn = engine.socket_entry(cid).expect("connection socket missing");
    assert_eq!(conn.status, TcpStatus::SynRcvd);
    assert_eq!(conn.recv_param.next, 1001);
    assert_eq!(conn.recv_param.initial_seq, 1000);
    assert_eq!(conn.send_param.initial_seq, 7000);
    assert_eq!(conn.send_param.unacked_seq, 7000);
    assert_eq!(conn.send_param.next, 7001);
    assert_eq!(conn.send_param.window, 1024);
    assert_eq!(conn.listening_socket, Some(lid));
    // The SYN+ACK awaits acknowledgment in the retransmission queue.
    assert_eq!(conn.retransmission_queue.len(), 1);
    assert_eq!(conn.retransmission_queue[0].transmission_count, 1);
    assert_eq!(conn.retransmission_queue[0].latest_transmission_time, 10);

    // The connection's identity is fully determined, the listener's never
    // changed.
    assert_ne!(cid.1, Ipv4Addr::new(0, 0, 0, 0));
    assert_ne!(cid.3, 0);
    let listener = engine.socket_entry(lid).expect("listener missing");
    assert_eq!(listener.status, TcpStatus::Listen);
    assert_eq!(listener.connected_connection_queue.len(), 0);
}

/// Scenario: the same connection receives ACK(seq=1001, ack=7001); it
/// becomes ESTABLISHED, joins the listener's connected queue, and a
/// subsequent accept returns it.
#[test]
fn passive_open_completes_and_accept_returns_identity() {
    let mut engine = TCP::new();
    let lid = engine.listen(listen_addr(), 8080);
    let syn = build_packet(
        listen_addr(),
        peer_addr(),
        50000,
        8080,
        1000,
        0,
        tcpflags::SYN,
        1024,
        &Vec::new(),
    );
    engine.listen_handler(lid, &syn, peer_addr(), 7000, 10);
    let cid = SockID(listen_addr(), peer_addr(), 8080, 50000);

    let ack = build_packet(
        listen_addr(),
        peer_addr(),
        50000,
        8080,
        1001,
        7001,
        tcpflags::ACK,
        1024,
        &Vec::new(),
    );
    let bytes = ack.encode();
    let reply = engine.on_segment(listen_addr(), peer_addr(), &bytes, 11);
    assert!(reply.is_none());

    let conn = engine.socket_entry(cid).expect("connection socket missing");
    assert_eq!(conn.status, TcpStatus::Established);
    assert_eq!(conn.send_param.unacked_seq, 7001);
    assert_eq!(conn.recv_param.next, 1001);

    let listener = engine.socket_entry(lid).expect("listener missing");
    assert_eq!(listener.connected_connection_queue, vec![cid]);

    // The completion event is addressed to the listener, not the
    // connection, and is consumed by exactly one matching wait.
    assert!(!engine.poll_event(cid, TCPEventKind::ConnectionCompleted));
    assert!(engine.poll_event(lid, TCPEventKind::ConnectionCompleted));
    assert!(!engine.poll_event(lid, TCPEventKind::ConnectionCompleted));

    assert_eq!(engine.accept(lid), Ok(cid));
    // Waking with an empty queue is an internal consistency violation.
    assert_eq!(engine.accept(lid), Err(TcpError::NoConnectedSocket));
}

/// Scenario: connect(10.0.0.2, 9000) with an empty table picks a local
/// port in the ephemeral range, registers a SYN-SENT socket, and hands
/// back a SYN with a random sequence number in [1, 2^31).
#[test]
fn active_open_sends_syn_from_ephemeral_port() {
    let mut engine = TCP::new();
    let (cid, syn) = engine
        .connect(listen_addr(), peer_addr(), 9000, 5)
        .expect("connect failed");
    assert_eq!(cid.0, listen_addr());
    assert_eq!(cid.1, peer_addr());
    assert!((40000..60000).contains(&cid.2));
    assert_eq!(cid.3, 9000);

    assert_eq!(syn.src_port, cid.2);
    assert_eq!(syn.dst_port, 9000);
    assert_eq!(syn.flag, tcpflags::SYN);
    assert_eq!(syn.ack, 0);
    assert!(syn.seq >= 1 && syn.seq < 1 << 31);
    assert!(syn.is_correct_checksum(listen_addr(), peer_addr()));

    let sock = engine.socket_entry(cid).expect("socket missing");
    assert_eq!(sock.status, TcpStatus::SynSent);
    assert_eq!(sock.send_param.initial_seq, syn.seq);
    assert_eq!(sock.send_param.unacked_seq, syn.seq);
    assert_eq!(sock.send_param.next, syn.seq + 1);
    // The SYN is queued for retransmission; a fresh socket has nothing
    // else outstanding.
    assert_eq!(sock.retransmission_queue.len(), 1);
    assert_eq!(sock.retransmission_queue[0].latest_transmission_time, 5);
}

/// The SYN+ACK answer establishes the active opener, which replies with a
/// bare acknowledgment that is never queued for retransmission.
#[test]
fn active_open_completes_on_syn_ack() {
    let mut engine = TCP::new();
    let (cid, syn) = engine
        .connect(listen_addr(), peer_addr(), 9000, 5)
        .expect("connect failed");

    let syn_ack = build_packet(
        listen_addr(),
        peer_addr(),
        9000,
        cid.2,
        3000,
        syn.seq + 1,
        tcpflags::SYN | tcpflags::ACK,
        2048,
        &Vec::new(),
    );
    let bytes = syn_ack.encode();
    let reply = engine
        .on_segment(listen_addr(), peer_addr(), &bytes, 6)
        .expect("no ACK transmitted");
    assert_eq!(reply.flag, tcpflags::ACK);
    assert_eq!(reply.seq, syn.seq + 1);
    assert_eq!(reply.ack, 3001);
    assert_eq!(reply.payload.len(), 0);

    let sock = engine.socket_entry(cid).expect("socket missing");
    assert_eq!(sock.status, TcpStatus::Established);
    assert_eq!(sock.recv_param.next, 3001);
    assert_eq!(sock.recv_param.initial_seq, 3000);
    assert_eq!(sock.send_param.unacked_seq, syn.seq + 1);
    assert_eq!(sock.send_param.window, 2048);
    // The pure ACK was not queued: only the original SYN is outstanding.
    assert_eq!(sock.retransmission_queue.len(), 1);

    assert!(engine.poll_event(cid, TCPEventKind::ConnectionCompleted));
}

/// Scenario: with every port of the ephemeral range occupied, connect
/// reports exhaustion instead of blocking forever.
#[test]
fn port_exhaustion_fails_connect() {
    let mut engine = TCP::new();
    for port in 40000u16..60000u16 {
        engine.listen(listen_addr(), port);
    }
    let r = engine.connect(listen_addr(), peer_addr(), 9000, 0);
    assert_eq!(r.err(), Some(TcpError::NoAvailablePort));
}
