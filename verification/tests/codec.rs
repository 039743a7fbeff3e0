use toytcp::packet::{build_packet, parse, validate_bytes, TCPPacket};
use toytcp::socket::TcpStatus;
use toytcp::tcpflags;
use toytcp::Ipv4Addr;

fn sample_packet() -> TCPPacket {
    build_packet(
        Ipv4Addr::new(10, 0, 0, 1),
        Ipv4Addr::new(10, 0, 0, 2),
        40123,
        9000,
        1000,
        2000,
        tcpflags::ACK | tcpflags::PSH,
        4380,
        &vec![1, 2, 3, 4, 5],
    )
}

#[test]
fn build_packet_sets_fields() {
    let p = sample_packet();
    assert_eq!(p.src_port, 40123);
    assert_eq!(p.dst_port, 9000);
    assert_eq!(p.seq, 1000);
    assert_eq!(p.ack, 2000);
    assert_eq!(p.data_offset, 5);
    assert_eq!(p.flag, tcpflags::ACK | tcpflags::PSH);
    assert_eq!(p.window_size, 4380);
    assert_eq!(p.payload, vec![1, 2, 3, 4, 5]);
}

#[test]
fn checksum_known_value_all_zero() {
    // Pseudo-header words: 0, 0, 0, 0, protocol 6, length 20; the header
    // contributes only its offset byte, word 0x5000 (data offset 5).
    // One's-complement sum = 0x501A; checksum = 0xFFFF - 0x501A = 0xAFE5.
    let p = build_packet(
        Ipv4Addr::new(0, 0, 0, 0),
        Ipv4Addr::new(0, 0, 0, 0),
        0,
        0,
        0,
        0,
        0,
        0,
        &Vec::new(),
    );
    assert_eq!(p.checksum, 0xAFE5);
}

#[test]
fn checksum_known_value_odd_payload() {
    // Words: pseudo 0,0,0,0,6,21; offset word 0x5000; payload 0xAB padded
    // to 0xAB00. Sum = 6 + 21 + 0x5000 + 0xAB00 = 0xFB1B; checksum 0x04E4.
    let p = build_packet(
        Ipv4Addr::new(0, 0, 0, 0),
        Ipv4Addr::new(0, 0, 0, 0),
        0,
        0,
        0,
        0,
        0,
        0,
        &vec![0xAB],
    );
    assert_eq!(p.checksum, 0x04E4);
}

#[test]
fn checksum_round_trip_validates() {
    let local = Ipv4Addr::new(10, 0, 0, 1);
    let remote = Ipv4Addr::new(10, 0, 0, 2);
    let p = sample_packet();
    assert!(p.is_correct_checksum(local, remote));
    let bytes = p.encode();
    assert!(validate_bytes(local, remote, &bytes));
}

#[test]
fn checksum_detects_every_single_byte_flip() {
    let local = Ipv4Addr::new(10, 0, 0, 1);
    let remote = Ipv4Addr::new(10, 0, 0, 2);
    let p = sample_packet();
    let bytes = p.encode();
    assert!(validate_bytes(local, remote, &bytes));
    for k in 0..bytes.len() {
        let mut corrupted = bytes.clone();
        corrupted[k] ^= 0xFF;
        assert!(
            !validate_bytes(local, remote, &corrupted),
            "flip of byte {} went undetected",
            k
        );
        let mut nudged = bytes.clone();
        nudged[k] = nudged[k].wrapping_add(1);
        assert!(
            !validate_bytes(local, remote, &nudged),
            "increment of byte {} went undetected",
            k
        );
    }
}

#[test]
fn checksum_fails_against_wrong_address_pair() {
    let p = sample_packet();
    assert!(!p.is_correct_checksum(Ipv4Addr::new(10, 0, 0, 1), Ipv4Addr::new(10, 0, 0, 3)));
}

#[test]
fn parse_round_trips_encode() {
    let p = sample_packet();
    let bytes = p.encode();
    let q = parse(&bytes).expect("parse failed");
    assert_eq!(q.src_port, p.src_port);
    assert_eq!(q.dst_port, p.dst_port);
    assert_eq!(q.seq, p.seq);
    assert_eq!(q.ack, p.ack);
    assert_eq!(q.data_offset, 5);
    assert_eq!(q.flag, p.flag);
    assert_eq!(q.window_size, p.window_size);
    assert_eq!(q.checksum, p.checksum);
    assert_eq!(q.payload, p.payload);
}

#[test]
fn parse_rejects_short_buffer() {
    assert!(parse(&vec![0; 19]).is_none());
    assert!(parse(&Vec::new()).is_none());
}

#[test]
fn parse_rejects_bad_data_offset() {
    let mut bytes = sample_packet().encode();
    bytes[12] = 4 << 4; // header shorter than the fixed minimum
    assert!(parse(&bytes).is_none());
    bytes[12] = 15 << 4; // header longer than the whole buffer
    assert!(parse(&bytes).is_none());
}

#[test]
fn status_labels() {
    assert_eq!(TcpStatus::Listen.label(), "LISTEN");
    assert_eq!(TcpStatus::SynSent.label(), "SYNSENT");
    assert_eq!(TcpStatus::SynRcvd.label(), "SYNRCVD");
    assert_eq!(TcpStatus::Established.label(), "ESTABLISHED");
    assert_eq!(TcpStatus::FinWait1.label(), "FINWAIT1");
    assert_eq!(TcpStatus::FinWait2.label(), "FINWAIT2");
    assert_eq!(TcpStatus::TimeWait.label(), "TIMEWAIT");
    assert_eq!(TcpStatus::CloseWait.label(), "CLOSEWAIT");
    assert_eq!(TcpStatus::LastAck.label(), "LASTACK");
}
