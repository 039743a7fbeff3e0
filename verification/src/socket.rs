//! One connection's (or one listener's) mutable state: sequence-number
//! bookkeeping, status, retransmission queue, and the listener's queue of
//! completed connections.

use vstd::prelude::*;

use crate::packet::{
    build_packet, is_pure_ack, pkt_eq, spec_encode, valid_checksum, TCPPacket, MAX_PAYLOAD_LEN,
};
use crate::Ipv4Addr;

verus! {

/// This side's advertised receive window.
pub const SOCKET_BUFFER_SIZE: u16 = 4380;

/// The 4-tuple (local address, remote address, local port, remote port)
/// that names one connection — or one listener, whose remote fields hold
/// the undetermined sentinel (0.0.0.0, port 0).
#[derive(Debug, Hash, Eq, PartialEq, Clone, Copy, Structural)]
pub struct SockID(pub Ipv4Addr, pub Ipv4Addr, pub u16, pub u16);

/// Send-side sequence bookkeeping. Invariant: `unacked_seq <= next`.
#[derive(Debug, Eq, PartialEq, Clone, Copy, Structural)]
pub struct SendParam {
    /// Oldest sequence number sent but not yet acknowledged.
    pub unacked_seq: u32,
    /// Next sequence number to send.
    pub next: u32,
    /// The peer's advertised receive window.
    pub window: u16,
    /// Initial send sequence number, drawn at connection start.
    pub initial_seq: u32,
}

/// Receive-side sequence bookkeeping.
#[derive(Debug, Eq, PartialEq, Clone, Copy, Structural)]
pub struct RecvParam {
    /// Next expected receive sequence number.
    pub next: u32,
    /// This side's receive window.
    pub window: u16,
    /// Initial receive sequence number.
    pub initial_seq: u32,
    /// Highest sequence number received.
    pub tail: u32,
}

/// The nine RFC 793 connection states. Only LISTEN, SYN-SENT, SYN-RCVD
/// and ESTABLISHED have transition handlers in this core; the close-path
/// states are declared but unreached.
#[derive(Debug, Eq, PartialEq, Clone, Copy, Structural)]
pub enum TcpStatus {
    Listen,
    SynSent,
    SynRcvd,
    Established,
    FinWait1,
    FinWait2,
    TimeWait,
    CloseWait,
    LastAck,
}

impl TcpStatus {
    /// The state's conventional upper-case name.
    pub fn label(&self) -> (r: &'static str)
        ensures
            *self == TcpStatus::Listen ==> r@ == "LISTEN"@,
            *self == TcpStatus::SynSent ==> r@ == "SYNSENT"@,
            *self == TcpStatus::SynRcvd ==> r@ == "SYNRCVD"@,
            *self == TcpStatus::Established ==> r@ == "ESTABLISHED"@,
            *self == TcpStatus::FinWait1 ==> r@ == "FINWAIT1"@,
            *self == TcpStatus::FinWait2 ==> r@ == "FINWAIT2"@,
            *self == TcpStatus::TimeWait ==> r@ == "TIMEWAIT"@,
            *self == TcpStatus::CloseWait ==> r@ == "CLOSEWAIT"@,
            *self == TcpStatus::LastAck ==> r@ == "LASTACK"@,
    {
        match self {
            TcpStatus::Listen => "LISTEN",
            TcpStatus::SynSent => "SYNSENT",
            TcpStatus::SynRcvd => "SYNRCVD",
            TcpStatus::Established => "ESTABLISHED",
            TcpStatus::FinWait1 => "FINWAIT1",
            TcpStatus::FinWait2 => "FINWAIT2",
            TcpStatus::TimeWait => "TIMEWAIT",
            TcpStatus::CloseWait => "CLOSEWAIT",
            TcpStatus::LastAck => "LASTACK",
        }
    }
}

/// One outstanding segment awaiting acknowledgment, with the time it was
/// last put on the wire and how often it has been sent.
pub struct RetransmissionQueueEntry {
    pub packet: TCPPacket,
    pub latest_transmission_time: u64,
    pub transmission_count: u8,
}

impl RetransmissionQueueEntry {
    /// A fresh entry: sent once, at `now`.
    pub fn new(packet: TCPPacket, now: u64) -> (r: Self)
        ensures
            r.packet == packet,
            r.latest_transmission_time == now,
            r.transmission_count == 1,
    {
        Self { packet, latest_transmission_time: now, transmission_count: 1 }
    }
}

/// One socket: identity, send/receive bookkeeping, status, the
/// retransmission queue, and — for listeners only — the queue of
/// connections that completed their handshake and await `accept`.
pub struct Socket {
    pub local_addr: Ipv4Addr,
    pub remote_addr: Ipv4Addr,
    pub local_port: u16,
    pub remote_port: u16,
    pub send_param: SendParam,
    pub recv_param: RecvParam,
    pub status: TcpStatus,
    pub retransmission_queue: Vec<RetransmissionQueueEntry>,
    pub connected_connection_queue: Vec<SockID>,
    /// For a connection spawned by passive open: the identity of the
    /// listener that spawned it — a lookup key, never an owning link.
    pub listening_socket: Option<SockID>,
}

impl Socket {
    /// The identity this socket occupies in the table.
    pub open spec fn sock_id_spec(self) -> SockID {
        SockID(self.local_addr, self.remote_addr, self.local_port, self.remote_port)
    }

    /// Socket well-formedness: the sequence-number invariant
    /// `unacked_seq <= next`, and a retransmission queue that holds no
    /// pure acknowledgment, no entry sent less than once, and no payload
    /// too long to frame.
    pub open spec fn wf(self) -> bool {
        &&& self.send_param.unacked_seq <= self.send_param.next
        &&& forall|i: int|
            0 <= i < self.retransmission_queue@.len() ==> !is_pure_ack(
                #[trigger] self.retransmission_queue@[i].packet,
            )
        &&& forall|i: int|
            0 <= i < self.retransmission_queue@.len() ==> (
            #[trigger] self.retransmission_queue@[i]).transmission_count >= 1
        &&& forall|i: int|
            0 <= i < self.retransmission_queue@.len() ==> (
            #[trigger] self.retransmission_queue@[i]).packet.payload@.len() <= MAX_PAYLOAD_LEN
        &&& self.status == TcpStatus::SynSent ==> self.recv_param.next == 0
    }

    /// A fresh socket for the given identity: zeroed sequence numbers,
    /// default windows, empty queues, no listener back-reference.
    pub fn new(
        local_addr: Ipv4Addr,
        remote_addr: Ipv4Addr,
        local_port: u16,
        remote_port: u16,
        status: TcpStatus,
    ) -> (r: Self)
        ensures
            r.local_addr == local_addr,
            r.remote_addr == remote_addr,
            r.local_port == local_port,
            r.remote_port == remote_port,
            r.status == status,
            r.send_param == (SendParam { unacked_seq: 0, next: 0, window: SOCKET_BUFFER_SIZE, initial_seq: 0 }),
            r.recv_param == (RecvParam { next: 0, window: SOCKET_BUFFER_SIZE, initial_seq: 0, tail: 0 }),
            r.retransmission_queue@.len() == 0,
            r.connected_connection_queue@.len() == 0,
            r.listening_socket is None,
            r.wf(),
    {
        Self {
            local_addr,
            remote_addr,
            local_port,
            remote_port,
            send_param: SendParam {
                unacked_seq: 0,
                next: 0,
                window: SOCKET_BUFFER_SIZE,
                initial_seq: 0,
            },
            recv_param: RecvParam {
                next: 0,
                window: SOCKET_BUFFER_SIZE,
                initial_seq: 0,
                tail: 0,
            },
            status,
            retransmission_queue: Vec::new(),
            connected_connection_queue: Vec::new(),
            listening_socket: None,
        }
    }

    pub fn get_sock_id(&self) -> (r: SockID)
        ensures
            r == self.sock_id_spec(),
    {
        SockID(self.local_addr, self.remote_addr, self.local_port, self.remote_port)
    }

    /// Frames and checksums an outbound segment for this connection's
    /// address pair and — unless it is a pure acknowledgment, which is
    /// never retransmitted — appends it to the retransmission queue with
    /// transmit count 1 and timestamp `now`. Returns the segment for the
    /// caller to put on the wire; nothing else about the socket changes.
    /// The segment is queued whether or not the caller's transmission
    /// then succeeds — a deliberate choice: a segment whose first send
    /// fails is retried by the retransmission scanner, while the send
    /// failure still surfaces to the caller at the transmitting layer.
    pub fn send_tcp_packet(
        &mut self,
        seq: u32,
        ack: u32,
        flag: u8,
        payload: &Vec<u8>,
        now: u64,
    ) -> (r: TCPPacket)
        requires
            old(self).wf(),
            payload@.len() <= MAX_PAYLOAD_LEN,
        ensures
            final(self).wf(),
            r.src_port == old(self).local_port,
            r.dst_port == old(self).remote_port,
            r.seq == seq,
            r.ack == ack,
            r.data_offset == 5,
            r.flag == flag,
            r.window_size == old(self).recv_param.window,
            r.payload@ == payload@,
            valid_checksum(old(self).local_addr, old(self).remote_addr, spec_encode(r)),
            is_pure_ack(r) ==> final(self).retransmission_queue@ == old(
                self,
            ).retransmission_queue@,
            !is_pure_ack(r) ==> {
                let q = final(self).retransmission_queue@;
                let q0 = old(self).retransmission_queue@;
                &&& q.len() == q0.len() + 1
                &&& q.subrange(0, q0.len() as int) == q0
                &&& pkt_eq(q.last().packet, r)
                &&& q.last().latest_transmission_time == now
                &&& q.last().transmission_count == 1
            },
            final(self).local_addr == old(self).local_addr,
            final(self).remote_addr == old(self).remote_addr,
            final(self).local_port == old(self).local_port,
            final(self).remote_port == old(self).remote_port,
            final(self).send_param == old(self).send_param,
            final(self).recv_param == old(self).recv_param,
            final(self).status == old(self).status,
            final(self).connected_connection_queue@ == old(self).connected_connection_queue@,
            final(self).listening_socket == old(self).listening_socket,
    {
        let packet = build_packet(
            self.local_addr,
            self.remote_addr,
            self.local_port,
            self.remote_port,
            seq,
            ack,
            flag,
            self.recv_param.window,
            payload,
        );
        let is_empty = packet.payload.len() == 0;
        if is_empty && packet.flag == crate::tcpflags::ACK {
            return packet;
        }
        let entry = RetransmissionQueueEntry::new(packet.clone(), now);
        let ghost q0 = self.retransmission_queue@;
        self.retransmission_queue.push(entry);
        proof {
            assert(self.retransmission_queue@.subrange(0, q0.len() as int) =~= q0);
        }
        packet
    }
}

} // verus!
