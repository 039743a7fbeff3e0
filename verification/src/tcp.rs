//! The protocol engine: the socket table, the per-state segment handlers,
//! the single-slot event channel, and the connection-lifecycle API.
//!
//! The engine is a state machine over plain values. Raw packet I/O,
//! threads and blocking live outside: callers hand in parsed segments,
//! addresses and timestamps, and carry away the segments the engine wants
//! transmitted.

use vstd::prelude::*;

use rand::Rng;

use crate::packet::{
    is_pure_ack, parseable, parses_to, pkt_eq, spec_encode, valid_checksum, TCPPacket,
};
use crate::socket::{RecvParam, SendParam, SockID, Socket, TcpStatus, SOCKET_BUFFER_SIZE};
use crate::tcpflags;
use crate::Ipv4Addr;

verus! {

/// The sentinel port a listener carries in place of a remote port.
pub const UNDETERMINED_PORT: u16 = 0;

/// How often a queued segment may be put on the wire before it is
/// treated as undeliverable and dropped from its queue.
pub const MAX_TRANSMISSION: u8 = 5;

/// Age (in the caller's clock ticks) past which a queued segment is
/// retransmitted.
pub const RETRANSMISSION_TIMEOUT: u64 = 3;

/// First port of the ephemeral range `connect` draws from.
pub const PORT_RANGE_START: u16 = 40000;

/// One past the last port of the ephemeral range.
pub const PORT_RANGE_END: u16 = 60000;

/// What a published event reports about a connection.
#[derive(Debug, Eq, PartialEq, Clone, Copy, Structural)]
pub enum TCPEventKind {
    ConnectionCompleted,
    Acked,
    DataArrived,
    ConnectionClosed,
}

/// One event: the identity it concerns and what happened to it.
#[derive(Debug, Eq, PartialEq, Clone, Copy, Structural)]
pub struct TCPEvent {
    pub sock_id: SockID,
    pub kind: TCPEventKind,
}

impl TCPEvent {
    pub fn new(sock_id: SockID, kind: TCPEventKind) -> (r: Self)
        ensures
            r == (TCPEvent { sock_id, kind }),
    {
        Self { sock_id, kind }
    }
}

/// The failures the lifecycle API surfaces.
#[derive(Debug, Eq, PartialEq, Clone, Copy, Structural)]
pub enum TcpError {
    /// Every port of the ephemeral range was tried and found occupied.
    NoAvailablePort,
    /// The identity handed in is not in the socket table.
    NoSuchSocket,
    /// `accept` ran with nothing in the listener's connected queue — an
    /// internal consistency violation, not a protocol condition.
    NoConnectedSocket,
}

/// Relies on rand: `Rng::gen_range(lo..hi)` on the thread-local generator
/// returns a value in `[lo, hi)` and panics only on an empty range, which
/// the precondition rules out. Nothing more is promised of a random draw.
#[verifier::external_body]
fn random_in_range_u32(lo: u32, hi: u32) -> (r: u32)
    requires
        lo < hi,
    ensures
        lo <= r < hi,
{
    rand::thread_rng().gen_range(lo..hi)
}

/// The next sequence number after `x`, wrapping at the end of the 32-bit
/// sequence space.
pub open spec fn seq_add1(x: u32) -> u32 {
    if x == 0xFFFFFFFFu32 {
        0u32
    } else {
        (x + 1) as u32
    }
}

/// Executable wrap-around increment matching `seq_add1`.
fn seq_plus1(x: u32) -> (r: u32)
    ensures
        r == seq_add1(x),
{
    if x == 0xFFFFFFFF {
        0
    } else {
        x + 1
    }
}

/// True when `flag` has the control bit `bit` set.
pub open spec fn has_flag(flag: u8, bit: u8) -> bool {
    flag & bit != 0
}

/// An acknowledgment number the socket may accept: it acknowledges
/// nothing older than `unacked_seq` and nothing past `next`.
pub open spec fn ack_acceptable(sp: SendParam, ack: u32) -> bool {
    sp.unacked_seq <= ack <= sp.next
}

/// The identity a connection spawned by passive open gets: the listener's
/// local fields, and the peer's address and source port as remote fields.
pub open spec fn spawned_id(ls: Socket, remote_addr: Ipv4Addr, seg: TCPPacket) -> SockID {
    SockID(ls.local_addr, remote_addr, ls.local_port, seg.src_port)
}

/// How a SYN-RCVD socket looks after a valid acknowledgment establishes
/// it: receive-next takes the segment's sequence number, send-unacked the
/// acknowledgment, status becomes ESTABLISHED, and — when the socket is
/// its own listener — its connected queue gains its own identity.
/// Everything else is untouched.
pub open spec fn conn_established(
    s0: Socket,
    s1: Socket,
    seg: TCPPacket,
    self_listener: bool,
    sock_id: SockID,
) -> bool {
    &&& s1.local_addr == s0.local_addr
    &&& s1.remote_addr == s0.remote_addr
    &&& s1.local_port == s0.local_port
    &&& s1.remote_port == s0.remote_port
    &&& s1.send_param == (SendParam {
        unacked_seq: seg.ack,
        next: s0.send_param.next,
        window: s0.send_param.window,
        initial_seq: s0.send_param.initial_seq,
    })
    &&& s1.recv_param == (RecvParam {
        next: seg.seq,
        window: s0.recv_param.window,
        initial_seq: s0.recv_param.initial_seq,
        tail: s0.recv_param.tail,
    })
    &&& s1.status == TcpStatus::Established
    &&& s1.retransmission_queue@ == s0.retransmission_queue@
    &&& s1.listening_socket == s0.listening_socket
    &&& if self_listener {
        s1.connected_connection_queue@ == s0.connected_connection_queue@.push(sock_id)
    } else {
        s1.connected_connection_queue@ == s0.connected_connection_queue@
    }
}

/// How a listener looks after one of its spawned connections completes:
/// the connection's identity is appended to its connected queue and
/// nothing else changes.
pub open spec fn listener_enqueued(l0: Socket, l1: Socket, cid: SockID) -> bool {
    &&& l1.local_addr == l0.local_addr
    &&& l1.remote_addr == l0.remote_addr
    &&& l1.local_port == l0.local_port
    &&& l1.remote_port == l0.remote_port
    &&& l1.send_param == l0.send_param
    &&& l1.recv_param == l0.recv_param
    &&& l1.status == l0.status
    &&& l1.retransmission_queue@ == l0.retransmission_queue@
    &&& l1.listening_socket == l0.listening_socket
    &&& l1.connected_connection_queue@ == l0.connected_connection_queue@.push(cid)
}

/// What receipt of `seg` does to a SYN-RCVD socket: with the ACK flag set
/// and the acknowledgment in `[send_unacked, send_next]` the connection
/// is established, its listener (if any) learns of it and a
/// connection-completed event addressed to the listener is published;
/// any other segment changes nothing.
pub open spec fn synrcvd_step(pre: TCP, post: TCP, sock_id: SockID, seg: TCPPacket) -> bool {
    let s0 = pre.sock(sock_id);
    if has_flag(seg.flag, tcpflags::ACK) && ack_acceptable(s0.send_param, seg.ack) {
        &&& post.has_sock(sock_id)
        &&& conn_established(
            s0,
            post.sock(sock_id),
            seg,
            s0.listening_socket == Some(sock_id),
            sock_id,
        )
        &&& match s0.listening_socket {
            Some(lid) => {
                &&& (lid != sock_id ==> post.has_sock(lid) && listener_enqueued(
                    pre.sock(lid),
                    post.sock(lid),
                    sock_id,
                ))
                &&& post.event == Some(
                    TCPEvent { sock_id: lid, kind: TCPEventKind::ConnectionCompleted },
                )
                &&& table_same_except2(pre.socks(), post.socks(), sock_id, lid)
            },
            None => {
                &&& post.event == pre.event
                &&& table_same_except(pre.socks(), post.socks(), sock_id)
            },
        }
    } else {
        post == pre
    }
}

/// What receipt of `seg` does to a SYN-SENT socket: with ACK and SYN both
/// set and the acknowledgment in `[send_unacked, send_next]`, the socket
/// seeds its receive side from the segment, transmits a bare
/// acknowledgment (never queued for retransmission), and — when its own
/// SYN was genuinely acknowledged — becomes ESTABLISHED and publishes a
/// connection-completed event for itself; with an unacknowledged SYN it
/// falls back to SYN-RCVD (simultaneous open) and publishes nothing. Any
/// other segment changes nothing.
pub open spec fn synsent_step(
    pre: TCP,
    post: TCP,
    sock_id: SockID,
    seg: TCPPacket,
    r: Option<TCPPacket>,
) -> bool {
    let s0 = pre.sock(sock_id);
    if has_flag(seg.flag, tcpflags::ACK) && ack_acceptable(s0.send_param, seg.ack) && has_flag(
        seg.flag,
        tcpflags::SYN,
    ) {
        let established = seg.ack > s0.send_param.initial_seq;
        &&& post.has_sock(sock_id)
        &&& ({
            let s1 = post.sock(sock_id);
            &&& s1.local_addr == s0.local_addr
            &&& s1.remote_addr == s0.remote_addr
            &&& s1.local_port == s0.local_port
            &&& s1.remote_port == s0.remote_port
            &&& s1.send_param == (SendParam {
                unacked_seq: seg.ack,
                next: s0.send_param.next,
                window: seg.window_size,
                initial_seq: s0.send_param.initial_seq,
            })
            &&& s1.recv_param == (RecvParam {
                next: seq_add1(seg.seq),
                window: s0.recv_param.window,
                initial_seq: seg.seq,
                tail: s0.recv_param.tail,
            })
            &&& s1.status == (if established {
                TcpStatus::Established
            } else {
                TcpStatus::SynRcvd
            })
            &&& s1.retransmission_queue@ == s0.retransmission_queue@
            &&& s1.connected_connection_queue@ == s0.connected_connection_queue@
            &&& s1.listening_socket == s0.listening_socket
        })
        &&& (r matches Some(p) && {
            &&& p.src_port == s0.local_port
            &&& p.dst_port == s0.remote_port
            &&& p.seq == s0.send_param.next
            &&& p.ack == seq_add1(seg.seq)
            &&& p.data_offset == 5
            &&& p.flag == tcpflags::ACK
            &&& p.window_size == s0.recv_param.window
            &&& p.payload@.len() == 0
            &&& valid_checksum(s0.local_addr, s0.remote_addr, spec_encode(p))
        })
        &&& post.event == (if established {
            Some(TCPEvent { sock_id, kind: TCPEventKind::ConnectionCompleted })
        } else {
            pre.event
        })
        &&& table_same_except(pre.socks(), post.socks(), sock_id)
    } else {
        &&& post == pre
        &&& r is None
    }
}

/// What receipt of `seg` from `remote_addr` does to a listener: a segment
/// with ACK set is not a new-connection request and is ignored; a segment
/// with SYN set spawns a new SYN-RCVD connection socket seeded from the
/// segment and the random initial sequence number `isn`, registers it
/// under its own now fully determined identity, and answers with a
/// SYN+ACK (queued for retransmission, stamped `now`). The listener
/// itself is not touched unless the spawned identity collides with its
/// own. Anything else is ignored.
pub open spec fn listen_step(
    pre: TCP,
    post: TCP,
    lid: SockID,
    seg: TCPPacket,
    remote_addr: Ipv4Addr,
    isn: u32,
    now: u64,
    r: Option<TCPPacket>,
) -> bool {
    let ls = pre.sock(lid);
    let nid = spawned_id(ls, remote_addr, seg);
    if has_flag(seg.flag, tcpflags::ACK) {
        &&& post == pre
        &&& r is None
    } else if has_flag(seg.flag, tcpflags::SYN) {
        &&& post.has_sock(nid)
        &&& ({
            let ns = post.sock(nid);
            &&& ns.local_addr == ls.local_addr
            &&& ns.remote_addr == remote_addr
            &&& ns.local_port == ls.local_port
            &&& ns.remote_port == seg.src_port
            &&& ns.status == TcpStatus::SynRcvd
            &&& ns.send_param == (SendParam {
                unacked_seq: isn,
                next: (isn + 1) as u32,
                window: seg.window_size,
                initial_seq: isn,
            })
            &&& ns.recv_param == (RecvParam {
                next: seq_add1(seg.seq),
                window: SOCKET_BUFFER_SIZE,
                initial_seq: seg.seq,
                tail: 0,
            })
            &&& ns.listening_socket == Some(lid)
            &&& ns.connected_connection_queue@.len() == 0
            &&& ns.retransmission_queue@.len() == 1
            &&& ns.retransmission_queue@[0].latest_transmission_time == now
            &&& ns.retransmission_queue@[0].transmission_count == 1
            &&& (r matches Some(p) && pkt_eq(ns.retransmission_queue@[0].packet, p))
        })
        &&& (r matches Some(p) && {
            &&& p.src_port == ls.local_port
            &&& p.dst_port == seg.src_port
            &&& p.seq == isn
            &&& p.ack == seq_add1(seg.seq)
            &&& p.data_offset == 5
            &&& p.flag == (tcpflags::SYN | tcpflags::ACK)
            &&& p.window_size == SOCKET_BUFFER_SIZE
            &&& p.payload@.len() == 0
            &&& valid_checksum(ls.local_addr, remote_addr, spec_encode(p))
        })
        &&& (nid != lid ==> post.has_sock(lid) && post.sock(lid) == ls)
        &&& table_same_except(pre.socks(), post.socks(), nid)
        &&& post.event == pre.event
    } else {
        &&& post == pre
        &&& r is None
    }
}

/// Which socket an inbound segment belongs to: the exact 4-tuple match
/// first; failing that, the wildcard listener on (local address, local
/// port) with remote fields at the undetermined sentinel; failing both,
/// none, and the segment is dropped.
pub open spec fn segment_target(
    t: Seq<Socket>,
    local_addr: Ipv4Addr,
    remote_addr: Ipv4Addr,
    seg: TCPPacket,
) -> Option<SockID> {
    let exact = SockID(local_addr, remote_addr, seg.dst_port, seg.src_port);
    let wildcard = SockID(local_addr, Ipv4Addr(0u8, 0u8, 0u8, 0u8), seg.dst_port, UNDETERMINED_PORT);
    if table_has(t, exact) {
        Some(exact)
    } else if table_has(t, wildcard) {
        Some(wildcard)
    } else {
        None
    }
}

/// What one inbound segment does to the engine, given its parsed fields
/// `p` and raw bytes `data`: a segment no socket owns is dropped; a
/// segment whose checksum does not validate over the raw bytes is
/// dropped; otherwise the owning socket's status selects the handler —
/// a status without one (the declared-but-unreached close-path states and
/// ESTABLISHED) deliberately changes nothing.
pub open spec fn on_segment_outcome(
    pre: TCP,
    post: TCP,
    local_addr: Ipv4Addr,
    remote_addr: Ipv4Addr,
    p: TCPPacket,
    data: Seq<u8>,
    now: u64,
    r: Option<TCPPacket>,
) -> bool {
    match segment_target(pre.socks(), local_addr, remote_addr, p) {
        None => post == pre && r is None,
        Some(tid) => {
            if !valid_checksum(local_addr, remote_addr, data) {
                post == pre && r is None
            } else {
                match pre.sock(tid).status {
                    TcpStatus::Listen => exists|isn: u32|
                        1 <= isn < 0x80000000 && #[trigger] listen_step(
                            pre,
                            post,
                            tid,
                            p,
                            remote_addr,
                            isn,
                            now,
                            r,
                        ),
                    TcpStatus::SynRcvd => synrcvd_step(pre, post, tid, p) && r is None,
                    TcpStatus::SynSent => synsent_step(pre, post, tid, p, r),
                    _ => post == pre && r is None,
                }
            }
        },
    }
}

/// An entry old enough at `now` to be resent.
pub open spec fn entry_expired(e: crate::socket::RetransmissionQueueEntry, now: u64) -> bool {
    e.latest_transmission_time + RETRANSMISSION_TIMEOUT <= now
}

/// An entry that stays in its queue after a scan at `now`: fresh entries
/// stay as they are; expired ones stay only while attempts remain, and
/// are otherwise treated as undeliverable and dropped.
pub open spec fn entry_kept(e: crate::socket::RetransmissionQueueEntry, now: u64) -> bool {
    !entry_expired(e, now) || e.transmission_count < MAX_TRANSMISSION
}

/// How a kept entry looks after a scan at `now`: an expired one keeps its
/// segment verbatim, is restamped, and counts one more attempt; a fresh
/// one is untouched.
pub open spec fn entry_after_tick(
    e: crate::socket::RetransmissionQueueEntry,
    now: u64,
) -> crate::socket::RetransmissionQueueEntry {
    if entry_expired(e, now) {
        crate::socket::RetransmissionQueueEntry {
            packet: e.packet,
            latest_transmission_time: now,
            transmission_count: (e.transmission_count + 1) as u8,
        }
    } else {
        e
    }
}

/// A retransmission queue after one scan at `now`, in order: kept entries
/// transformed by `entry_after_tick`, exhausted ones gone.
pub open spec fn queue_after_tick(
    q: Seq<crate::socket::RetransmissionQueueEntry>,
    now: u64,
) -> Seq<crate::socket::RetransmissionQueueEntry>
    decreases q.len(),
{
    if q.len() == 0 {
        Seq::empty()
    } else {
        let rest = queue_after_tick(q.drop_last(), now);
        if entry_kept(q.last(), now) {
            rest.push(entry_after_tick(q.last(), now))
        } else {
            rest
        }
    }
}

/// The segments one queue resends at `now` — the expired entries with
/// attempts remaining — paired with their destination address, in order.
pub open spec fn queue_resends(
    q: Seq<crate::socket::RetransmissionQueueEntry>,
    remote: Ipv4Addr,
    now: u64,
) -> Seq<(Ipv4Addr, TCPPacket)>
    decreases q.len(),
{
    if q.len() == 0 {
        Seq::empty()
    } else {
        let rest = queue_resends(q.drop_last(), remote, now);
        if entry_expired(q.last(), now) && q.last().transmission_count < MAX_TRANSMISSION {
            rest.push((remote, q.last().packet))
        } else {
            rest
        }
    }
}

/// Every resend the whole table makes at `now`, in table order.
pub open spec fn table_resends(t: Seq<Socket>, now: u64) -> Seq<(Ipv4Addr, TCPPacket)>
    decreases t.len(),
{
    if t.len() == 0 {
        Seq::empty()
    } else {
        table_resends(t.drop_last(), now) + queue_resends(
            t.last().retransmission_queue@,
            t.last().remote_addr,
            now,
        )
    }
}

/// Pointwise correspondence of transmit lists: same destinations, and
/// segments equal field for field.
pub open spec fn pairs_match(
    a: Seq<(Ipv4Addr, TCPPacket)>,
    b: Seq<(Ipv4Addr, TCPPacket)>,
) -> bool {
    &&& a.len() == b.len()
    &&& forall|k: int| 0 <= k < a.len() ==> (#[trigger] a[k]).0 == b[k].0 && pkt_eq(a[k].1, b[k].1)
}

/// One socket after a scan at `now`: only its retransmission queue
/// changes, and exactly as `queue_after_tick` says.
pub open spec fn socket_ticked(s0: Socket, s1: Socket, now: u64) -> bool {
    &&& s1.local_addr == s0.local_addr
    &&& s1.remote_addr == s0.remote_addr
    &&& s1.local_port == s0.local_port
    &&& s1.remote_port == s0.remote_port
    &&& s1.send_param == s0.send_param
    &&& s1.recv_param == s0.recv_param
    &&& s1.status == s0.status
    &&& s1.connected_connection_queue@ == s0.connected_connection_queue@
    &&& s1.listening_socket == s0.listening_socket
    &&& s1.retransmission_queue@ == queue_after_tick(s0.retransmission_queue@, now)
}

/// Entry `m` of a scanned queue is some kept entry of the old queue,
/// transformed by `entry_after_tick`.
proof fn lemma_queue_after_tick_entry(
    q: Seq<crate::socket::RetransmissionQueueEntry>,
    now: u64,
    m: int,
)
    requires
        0 <= m < queue_after_tick(q, now).len(),
    ensures
        exists|j: int|
            0 <= j < q.len() && queue_after_tick(q, now)[m] == #[trigger] entry_after_tick(
                q[j],
                now,
            ) && entry_kept(q[j], now),
    decreases q.len(),
{
    assert(q.len() > 0);
    let qa = queue_after_tick(q, now);
    let qa0 = queue_after_tick(q.drop_last(), now);
    if entry_kept(q.last(), now) && m == qa.len() - 1 {
        assert(qa[m] == entry_after_tick(q[q.len() - 1], now));
        assert(entry_kept(q[q.len() - 1], now));
    } else {
        assert(qa[m] == qa0[m]);
        assert(0 <= m < qa0.len());
        lemma_queue_after_tick_entry(q.drop_last(), now, m);
        let j = choose|j: int|
            0 <= j < q.drop_last().len() && qa0[m] == #[trigger] entry_after_tick(
                q.drop_last()[j],
                now,
            ) && entry_kept(q.drop_last()[j], now);
        assert(q.drop_last()[j] == q[j]);
        assert(queue_after_tick(q, now)[m] == entry_after_tick(q[j], now));
        assert(entry_kept(q[j], now));
    }
}

/// A table scanned socket by socket keeps its well-formedness.
proof fn lemma_ticked_table_wf(pre: Seq<Socket>, post: Seq<Socket>, now: u64)
    requires
        table_wf(pre),
        post.len() == pre.len(),
        forall|k: int| 0 <= k < pre.len() ==> socket_ticked(pre[k], #[trigger] post[k], now),
    ensures
        table_wf(post),
{
    assert forall|a: int, b: int| 0 <= a < b < post.len() implies (#[trigger] post[a]).sock_id_spec()
        != (#[trigger] post[b]).sock_id_spec() by {
        assert(post[a].sock_id_spec() == pre[a].sock_id_spec());
        assert(post[b].sock_id_spec() == pre[b].sock_id_spec());
        assert(pre[a].sock_id_spec() != pre[b].sock_id_spec());
    }
    assert forall|k: int| 0 <= k < post.len() implies (#[trigger] post[k]).wf() by {
        assert(pre[k].wf());
        let q0 = pre[k].retransmission_queue@;
        let q1 = post[k].retransmission_queue@;
        assert forall|m: int| 0 <= m < q1.len() implies !is_pure_ack(
            (#[trigger] q1[m]).packet,
        ) && q1[m].transmission_count >= 1 && q1[m].packet.payload@.len()
            <= crate::packet::MAX_PAYLOAD_LEN by {
            lemma_queue_after_tick_entry(q0, now, m);
            let j = choose|j: int|
                0 <= j < q0.len() && q1[m] == #[trigger] entry_after_tick(q0[j], now)
                    && entry_kept(q0[j], now);
            assert(!is_pure_ack(q0[j].packet));
            assert(q0[j].transmission_count >= 1);
        }
    }
    assert forall|k: int| 0 <= k < post.len() implies ((#[trigger] post[k]).listening_socket
        matches Some(l) ==> table_has(post, l)) by {
        match post[k].listening_socket {
            Some(l) => {
                assert(pre[k].listening_socket == post[k].listening_socket);
                assert(table_has(pre, l));
                let j = table_idx(pre, l);
                assert(post[j].sock_id_spec() == l);
                assert(table_has(post, l));
            },
            None => {},
        }
    }
}

/// Law: the retransmission queue never holds a pure acknowledgment —
/// an empty-payload, ACK-only segment is sent once and never queued,
/// since acknowledging an acknowledgment would regress forever. This is
/// one conjunct of `Socket::wf`, which every engine operation preserves.
pub proof fn lemma_no_pure_ack_in_queue(t: TCP, id: SockID)
    requires
        t.wf(),
        t.has_sock(id),
    ensures
        forall|m: int|
            0 <= m < t.sock(id).retransmission_queue@.len() ==> !is_pure_ack(
                (#[trigger] t.sock(id).retransmission_queue@[m]).packet,
            ),
{
    let i = table_idx(t.socks(), id);
    assert(t.socks()[i].wf());
}

/// Law: a segment whose acknowledgment number lies outside
/// `[send_unacked, send_next]` produces no state transition on a socket
/// in SYN-RCVD — the engine is left exactly as it was.
pub proof fn lemma_out_of_range_ack_ignored_synrcvd(
    pre: TCP,
    post: TCP,
    sock_id: SockID,
    seg: TCPPacket,
)
    requires
        !ack_acceptable(pre.sock(sock_id).send_param, seg.ack),
        synrcvd_step(pre, post, sock_id, seg),
    ensures
        post == pre,
{
}

/// Law: a segment whose acknowledgment number lies outside
/// `[send_unacked, send_next]` produces no state transition on a socket
/// in SYN-SENT, and nothing is transmitted in answer.
pub proof fn lemma_out_of_range_ack_ignored_synsent(
    pre: TCP,
    post: TCP,
    sock_id: SockID,
    seg: TCPPacket,
    r: Option<TCPPacket>,
)
    requires
        !ack_acceptable(pre.sock(sock_id).send_param, seg.ack),
        synsent_step(pre, post, sock_id, seg, r),
    ensures
        post == pre,
        r is None,
{
}

/// Law: the SYN-RCVD transition never regresses receive-next, provided
/// the accepted segment's sequence number is not itself older than what
/// the socket already expects. (A valid-ACK segment bearing an older
/// sequence number is the one input on which receive-next can move
/// backwards; the handshake peer never sends one.)
pub proof fn lemma_recv_next_monotonic_synrcvd(
    pre: TCP,
    post: TCP,
    sock_id: SockID,
    seg: TCPPacket,
)
    requires
        pre.has_sock(sock_id),
        synrcvd_step(pre, post, sock_id, seg),
        seg.seq >= pre.sock(sock_id).recv_param.next,
    ensures
        post.sock(sock_id).recv_param.next >= pre.sock(sock_id).recv_param.next,
{
}

/// Law: the SYN-SENT transition never regresses receive-next: a socket
/// still in SYN-SENT has never received anything, so its receive-next is
/// at its initial zero, and any seeding moves it forward.
pub proof fn lemma_recv_next_monotonic_synsent(
    pre: TCP,
    post: TCP,
    sock_id: SockID,
    seg: TCPPacket,
    r: Option<TCPPacket>,
)
    requires
        pre.wf(),
        pre.has_sock(sock_id),
        pre.sock(sock_id).status == TcpStatus::SynSent,
        synsent_step(pre, post, sock_id, seg, r),
    ensures
        post.sock(sock_id).recv_param.next >= pre.sock(sock_id).recv_param.next,
{
    let i = table_idx(pre.socks(), sock_id);
    assert(pre.socks()[i].wf());
    assert(pre.sock(sock_id).recv_param.next == 0);
}

/// Law: a passive open never touches the listener, and the connection it
/// spawns carries fully determined remote fields, provided the SYN itself
/// did not arrive from the undetermined sentinel source — a segment from
/// address 0.0.0.0 port 0 would spawn a connection under the listener's
/// own identity. (The active-open half of this law is stated directly in
/// `connect`'s postcondition: the returned identity's local port lies in
/// the ephemeral range.)
pub proof fn lemma_passive_open_preserves_listener(
    pre: TCP,
    post: TCP,
    lid: SockID,
    seg: TCPPacket,
    remote_addr: Ipv4Addr,
    isn: u32,
    now: u64,
    r: Option<TCPPacket>,
)
    requires
        pre.wf(),
        pre.has_sock(lid),
        listen_step(pre, post, lid, seg, remote_addr, isn, now, r),
        !has_flag(seg.flag, tcpflags::ACK),
        has_flag(seg.flag, tcpflags::SYN),
        pre.sock(lid).remote_addr == Ipv4Addr(0u8, 0u8, 0u8, 0u8),
        pre.sock(lid).remote_port == UNDETERMINED_PORT,
        remote_addr != Ipv4Addr(0u8, 0u8, 0u8, 0u8) || seg.src_port != 0,
    ensures
        post.has_sock(lid),
        post.sock(lid) == pre.sock(lid),
        spawned_id(pre.sock(lid), remote_addr, seg).1 == remote_addr,
        spawned_id(pre.sock(lid), remote_addr, seg).3 == seg.src_port,
        spawned_id(pre.sock(lid), remote_addr, seg) != lid,
{
    let ls = pre.sock(lid);
    let nid = spawned_id(ls, remote_addr, seg);
    let i = table_idx(pre.socks(), lid);
    lemma_table_witness(pre.socks(), i);
    assert(ls.sock_id_spec() == lid);
    assert(lid.1 == ls.remote_addr && lid.3 == ls.remote_port);
    assert(nid != lid);
}

/// True when `id` names an entry of the table.
pub open spec fn table_has(t: Seq<Socket>, id: SockID) -> bool {
    exists|i: int| 0 <= i < t.len() && t[i].sock_id_spec() == id
}

/// The index of `id`'s entry (meaningful only when `table_has`).
pub open spec fn table_idx(t: Seq<Socket>, id: SockID) -> int {
    choose|i: int| 0 <= i < t.len() && t[i].sock_id_spec() == id
}

/// The socket registered under `id` (meaningful only when `table_has`).
pub open spec fn table_sock(t: Seq<Socket>, id: SockID) -> Socket {
    t[table_idx(t, id)]
}

/// No two entries share an identity.
pub open spec fn table_unique(t: Seq<Socket>) -> bool {
    forall|i: int, j: int|
        0 <= i < j < t.len() ==> (#[trigger] t[i]).sock_id_spec() != (#[trigger] t[j]).sock_id_spec()
}

/// True when some entry occupies local port `p`.
pub open spec fn table_port_in_use(t: Seq<Socket>, p: u16) -> bool {
    exists|i: int| 0 <= i < t.len() && (#[trigger] t[i]).local_port == p
}

/// Every entry other than `id` is registered exactly as before.
pub open spec fn table_same_except(pre: Seq<Socket>, post: Seq<Socket>, id: SockID) -> bool {
    &&& forall|id2: SockID|
        id2 != id ==> (table_has(pre, id2) <==> #[trigger] table_has(post, id2))
    &&& forall|id2: SockID|
        id2 != id && table_has(pre, id2) ==> #[trigger] table_sock(post, id2) == table_sock(
            pre,
            id2,
        )
}

/// Table well-formedness: identities are unique keys, every socket
/// satisfies its own invariant, and every listener back-reference names
/// an entry of the table.
pub open spec fn table_wf(t: Seq<Socket>) -> bool {
    &&& table_unique(t)
    &&& forall|i: int| 0 <= i < t.len() ==> (#[trigger] t[i]).wf()
    &&& forall|i: int|
        0 <= i < t.len() ==> ((#[trigger] t[i]).listening_socket matches Some(l) ==> table_has(
            t,
            l,
        ))
}

/// Every entry other than `a` and `b` is registered exactly as before.
pub open spec fn table_same_except2(
    pre: Seq<Socket>,
    post: Seq<Socket>,
    a: SockID,
    b: SockID,
) -> bool {
    &&& forall|id2: SockID|
        id2 != a && id2 != b ==> (table_has(pre, id2) <==> #[trigger] table_has(post, id2))
    &&& forall|id2: SockID|
        id2 != a && id2 != b && table_has(pre, id2) ==> #[trigger] table_sock(post, id2)
            == table_sock(pre, id2)
}

/// The protocol engine: the socket table and the single event slot.
pub struct TCP {
    pub sockets: Vec<Socket>,
    pub event: Option<TCPEvent>,
}

impl TCP {
    /// The table as a sequence of sockets.
    pub open spec fn socks(self) -> Seq<Socket> {
        self.sockets@
    }

    pub open spec fn has_sock(self, id: SockID) -> bool {
        table_has(self.socks(), id)
    }

    pub open spec fn sock(self, id: SockID) -> Socket {
        table_sock(self.socks(), id)
    }

    pub open spec fn port_in_use(self, p: u16) -> bool {
        table_port_in_use(self.socks(), p)
    }

    /// Engine well-formedness (see `table_wf`).
    pub open spec fn wf(self) -> bool {
        table_wf(self.socks())
    }

    /// An engine with an empty table and no pending event.
    pub fn new() -> (r: TCP)
        ensures
            r.socks().len() == 0,
            r.event is None,
            r.wf(),
    {
        TCP { sockets: Vec::new(), event: None }
    }
}

proof fn lemma_table_witness(t: Seq<Socket>, i: int)
    requires
        table_unique(t),
        0 <= i < t.len(),
    ensures
        table_has(t, t[i].sock_id_spec()),
        table_idx(t, t[i].sock_id_spec()) == i,
        table_sock(t, t[i].sock_id_spec()) == t[i],
{
    let id = t[i].sock_id_spec();
    assert(table_has(t, id));
    let j = table_idx(t, id);
    if j != i {
        assert(t[i].sock_id_spec() != t[j].sock_id_spec());
    }
}

/// Replacing the entry at `i` with a socket of the same identity leaves
/// every other registration untouched.
proof fn lemma_table_update(pre: Seq<Socket>, s: Socket, i: int)
    requires
        table_unique(pre),
        0 <= i < pre.len(),
        pre[i].sock_id_spec() == s.sock_id_spec(),
    ensures
        table_unique(pre.update(i, s)),
        table_has(pre.update(i, s), s.sock_id_spec()),
        table_sock(pre.update(i, s), s.sock_id_spec()) == s,
        table_same_except(pre, pre.update(i, s), s.sock_id_spec()),
{
    let post = pre.update(i, s);
    assert forall|a: int, b: int| 0 <= a < b < post.len() implies (#[trigger] post[a]).sock_id_spec()
        != (#[trigger] post[b]).sock_id_spec() by {
        assert(pre[a].sock_id_spec() != pre[b].sock_id_spec());
    }
    lemma_table_witness(post, i);
    assert forall|id2: SockID| id2 != s.sock_id_spec() implies (table_has(pre, id2)
        <==> #[trigger] table_has(post, id2)) by {
        if table_has(pre, id2) {
            let j = table_idx(pre, id2);
            assert(j != i);
            assert(post[j].sock_id_spec() == id2);
        }
        if table_has(post, id2) {
            let j = table_idx(post, id2);
            assert(j != i);
            assert(pre[j].sock_id_spec() == id2);
        }
    }
    assert forall|id2: SockID| id2 != s.sock_id_spec() && table_has(pre, id2)
        implies #[trigger] table_sock(post, id2) == table_sock(pre, id2) by {
        let j = table_idx(pre, id2);
        assert(j != i);
        assert(post[j].sock_id_spec() == id2);
        lemma_table_witness(post, j);
        lemma_table_witness(pre, j);
    }
}

/// Appending a socket under a fresh identity leaves every other
/// registration untouched.
proof fn lemma_table_push(pre: Seq<Socket>, s: Socket)
    requires
        table_unique(pre),
        !table_has(pre, s.sock_id_spec()),
    ensures
        table_unique(pre.push(s)),
        table_has(pre.push(s), s.sock_id_spec()),
        table_sock(pre.push(s), s.sock_id_spec()) == s,
        table_same_except(pre, pre.push(s), s.sock_id_spec()),
{
    let post = pre.push(s);
    assert forall|a: int, b: int| 0 <= a < b < post.len() implies (#[trigger] post[a]).sock_id_spec()
        != (#[trigger] post[b]).sock_id_spec() by {
        if b == pre.len() as int {
            assert(post[a] == pre[a]);
            if post[a].sock_id_spec() == s.sock_id_spec() {
                assert(table_has(pre, s.sock_id_spec()));
            }
        } else {
            assert(pre[a].sock_id_spec() != pre[b].sock_id_spec());
        }
    }
    lemma_table_witness(post, pre.len() as int);
    assert forall|id2: SockID| id2 != s.sock_id_spec() implies (table_has(pre, id2)
        <==> #[trigger] table_has(post, id2)) by {
        if table_has(pre, id2) {
            let j = table_idx(pre, id2);
            assert(post[j].sock_id_spec() == id2);
        }
        if table_has(post, id2) {
            let j = table_idx(post, id2);
            assert(j < pre.len());
            assert(pre[j].sock_id_spec() == id2);
        }
    }
    assert forall|id2: SockID| id2 != s.sock_id_spec() && table_has(pre, id2)
        implies #[trigger] table_sock(post, id2) == table_sock(pre, id2) by {
        let j = table_idx(pre, id2);
        assert(post[j].sock_id_spec() == id2);
        lemma_table_witness(post, j);
        lemma_table_witness(pre, j);
    }
}

/// Replacing an entry with a well-formed socket of the same identity and
/// the same back-reference keeps the table well-formed.
proof fn lemma_update_keeps_table_wf(pre: Seq<Socket>, s: Socket, i: int)
    requires
        table_wf(pre),
        0 <= i < pre.len(),
        pre[i].sock_id_spec() == s.sock_id_spec(),
        s.wf(),
        s.listening_socket == pre[i].listening_socket,
    ensures
        table_wf(pre.update(i, s)),
{
    lemma_table_update(pre, s, i);
    let post = pre.update(i, s);
    assert forall|k: int| 0 <= k < post.len() implies ((#[trigger] post[k]).listening_socket
        matches Some(l) ==> table_has(post, l)) by {
        match post[k].listening_socket {
            Some(l) => {
                assert(pre[k].listening_socket == post[k].listening_socket);
                assert(table_has(pre, l));
                let j = table_idx(pre, l);
                assert(post[j].sock_id_spec() == l);
                assert(table_has(post, l));
            },
            None => {},
        }
    }
}

/// Appending a well-formed socket under a fresh identity, whose
/// back-reference (if any) names an existing entry or the socket itself,
/// keeps the table well-formed.
proof fn lemma_push_keeps_table_wf(pre: Seq<Socket>, s: Socket)
    requires
        table_wf(pre),
        !table_has(pre, s.sock_id_spec()),
        s.wf(),
        (s.listening_socket matches Some(l) ==> table_has(pre, l) || l == s.sock_id_spec()),
    ensures
        table_wf(pre.push(s)),
{
    lemma_table_push(pre, s);
    let post = pre.push(s);
    assert forall|k: int| 0 <= k < post.len() implies ((#[trigger] post[k]).listening_socket
        matches Some(l) ==> table_has(post, l)) by {
        match post[k].listening_socket {
            Some(l) => {
                if k < pre.len() {
                    assert(pre[k].listening_socket == post[k].listening_socket);
                    assert(table_has(pre, l));
                    let j = table_idx(pre, l);
                    assert(post[j].sock_id_spec() == l);
                    assert(table_has(post, l));
                } else {
                    if l == s.sock_id_spec() {
                        assert(table_has(post, l));
                    } else {
                        assert(table_has(pre, l));
                        let j = table_idx(pre, l);
                        assert(post[j].sock_id_spec() == l);
                        assert(table_has(post, l));
                    }
                }
            },
            None => {},
        }
    }
}

impl TCP {
    /// Index of the table entry registered under `id`, if any.
    fn find_socket(&self, id: SockID) -> (r: Option<usize>)
        ensures
            match r {
                Some(i) => i < self.socks().len() && self.socks()[i as int].sock_id_spec() == id,
                None => !self.has_sock(id),
            },
    {
        let mut i: usize = 0;
        while i < self.sockets.len()
            invariant
                i <= self.socks().len(),
                forall|j: int| 0 <= j < i ==> (#[trigger] self.socks()[j]).sock_id_spec() != id,
            decreases self.socks().len() - i,
        {
            let s = &self.sockets[i];
            if s.local_port == id.2 && s.remote_port == id.3 && s.local_addr == id.0
                && s.remote_addr == id.1 {
                return Some(i);
            }
            i = i + 1;
        }
        None
    }

    /// Registers `s` under its identity: replaces the entry of that
    /// identity if one exists, appends otherwise (the table is a map).
    fn upsert_socket(&mut self, s: Socket)
        requires
            old(self).wf(),
            s.wf(),
            (s.listening_socket matches Some(l) ==> old(self).has_sock(l) || l
                == s.sock_id_spec()),
        ensures
            final(self).wf(),
            final(self).has_sock(s.sock_id_spec()),
            final(self).sock(s.sock_id_spec()) == s,
            table_same_except(old(self).socks(), final(self).socks(), s.sock_id_spec()),
            final(self).event == old(self).event,
    {
        let ghost pre = self.sockets@;
        let id = s.get_sock_id();
        match self.find_socket(id) {
            Some(i) => {
                proof {
                    lemma_table_update(pre, s, i as int);
                    if pre[i as int].listening_socket == s.listening_socket {
                        lemma_update_keeps_table_wf(pre, s, i as int);
                    } else {
                        assert forall|k: int|
                            0 <= k < pre.update(i as int, s).len() implies ((
                        #[trigger] pre.update(i as int, s)[k]).listening_socket matches Some(l)
                            ==> table_has(pre.update(i as int, s), l)) by {
                            let post = pre.update(i as int, s);
                            match post[k].listening_socket {
                                Some(l) => {
                                    if k != i {
                                        assert(pre[k].listening_socket == post[k].listening_socket);
                                        assert(table_has(pre, l));
                                        let j = table_idx(pre, l);
                                        assert(post[j].sock_id_spec() == l);
                                    } else {
                                        if l != s.sock_id_spec() {
                                            assert(table_has(pre, l));
                                            let j = table_idx(pre, l);
                                            assert(post[j].sock_id_spec() == l);
                                        }
                                    }
                                    assert(table_has(post, l));
                                },
                                None => {},
                            }
                        }
                    }
                }
                self.sockets[i] = s;
            },
            None => {
                proof {
                    lemma_push_keeps_table_wf(pre, s);
                    lemma_table_push(pre, s);
                }
                self.sockets.push(s);
            },
        }
    }

    /// Overwrites the event slot with (`sock_id`, `kind`) — the previous
    /// pending event, if any, is lost. The caller wakes its waiters.
    pub fn publish_event(&mut self, sock_id: SockID, kind: TCPEventKind)
        ensures
            final(self).event == Some(TCPEvent { sock_id, kind }),
            final(self).socks() == old(self).socks(),
    {
        self.event = Some(TCPEvent::new(sock_id, kind));
    }

    /// One waiter's inspection of the event slot: consumes and reports a
    /// pending event exactly when it matches the requested identity and
    /// kind; a waiter that finds no match must leave the slot alone and
    /// block again.
    pub fn poll_event(&mut self, sock_id: SockID, kind: TCPEventKind) -> (r: bool)
        ensures
            r == (old(self).event == Some(TCPEvent { sock_id, kind })),
            r ==> final(self).event is None,
            !r ==> final(self).event == old(self).event,
            final(self).socks() == old(self).socks(),
    {
        let matched = match &self.event {
            Some(e) => e.sock_id == sock_id && e.kind == kind,
            None => false,
        };
        if matched {
            self.event = None;
            true
        } else {
            false
        }
    }

    /// Creates a listener socket on (`local_addr`, `local_port`) in
    /// LISTEN state, with the remote fields at the undetermined sentinel,
    /// registers it, and returns its identity. (Passive open, step one.)
    pub fn listen(&mut self, local_addr: Ipv4Addr, local_port: u16) -> (r: SockID)
        requires
            old(self).wf(),
        ensures
            final(self).wf(),
            r == SockID(local_addr, Ipv4Addr(0u8, 0u8, 0u8, 0u8), local_port, UNDETERMINED_PORT),
            final(self).has_sock(r),
            ({
                let ls = final(self).sock(r);
                &&& ls.status == TcpStatus::Listen
                &&& ls.local_addr == local_addr
                &&& ls.local_port == local_port
                &&& ls.remote_addr == Ipv4Addr(0u8, 0u8, 0u8, 0u8)
                &&& ls.remote_port == UNDETERMINED_PORT
                &&& ls.connected_connection_queue@.len() == 0
                &&& ls.retransmission_queue@.len() == 0
                &&& ls.listening_socket is None
            }),
            table_same_except(old(self).socks(), final(self).socks(), r),
            final(self).event == old(self).event,
    {
        let socket = Socket::new(
            local_addr,
            Ipv4Addr::unspecified(),
            local_port,
            UNDETERMINED_PORT,
            TcpStatus::Listen,
        );
        let sock_id = socket.get_sock_id();
        self.upsert_socket(socket);
        sock_id
    }

    /// Pops the oldest completed connection off a listener's queue. The
    /// caller blocks until a connection-completed event for `sock_id` has
    /// been published, then calls this; an empty queue after such an
    /// event is an internal consistency violation, reported as
    /// `NoConnectedSocket`.
    pub fn accept(&mut self, sock_id: SockID) -> (r: Result<SockID, TcpError>)
        requires
            old(self).wf(),
        ensures
            final(self).wf(),
            final(self).event == old(self).event,
            !old(self).has_sock(sock_id) ==> r == Err::<SockID, TcpError>(TcpError::NoSuchSocket)
                && *final(self) == *old(self),
            old(self).has_sock(sock_id) && old(self).sock(
                sock_id,
            ).connected_connection_queue@.len() == 0 ==> r == Err::<SockID, TcpError>(
                TcpError::NoConnectedSocket,
            ) && *final(self) == *old(self),
            old(self).has_sock(sock_id) && old(self).sock(
                sock_id,
            ).connected_connection_queue@.len() > 0 ==> {
                let s0 = old(self).sock(sock_id);
                let s1 = final(self).sock(sock_id);
                &&& r == Ok::<SockID, TcpError>(s0.connected_connection_queue@[0])
                &&& final(self).has_sock(sock_id)
                &&& s1.connected_connection_queue@ == s0.connected_connection_queue@.remove(0)
                &&& s1.local_addr == s0.local_addr
                &&& s1.remote_addr == s0.remote_addr
                &&& s1.local_port == s0.local_port
                &&& s1.remote_port == s0.remote_port
                &&& s1.send_param == s0.send_param
                &&& s1.recv_param == s0.recv_param
                &&& s1.status == s0.status
                &&& s1.retransmission_queue@ == s0.retransmission_queue@
                &&& s1.listening_socket == s0.listening_socket
                &&& table_same_except(old(self).socks(), final(self).socks(), sock_id)
            },
    {
        let ghost pre = self.sockets@;
        match self.find_socket(sock_id) {
            None => Err(TcpError::NoSuchSocket),
            Some(i) => {
                proof {
                    lemma_table_witness(pre, i as int);
                }
                if self.sockets[i].connected_connection_queue.len() == 0 {
                    Err(TcpError::NoConnectedSocket)
                } else {
                    let s = vstd::std_specs::vec::vec_index_mut(&mut self.sockets, i);
                    let cid = s.connected_connection_queue.remove(0);
                    proof {
                        let s1 = self.sockets@[i as int];
                        lemma_table_update(pre, s1, i as int);
                        lemma_update_keeps_table_wf(pre, s1, i as int);
                    }
                    Ok(cid)
                }
            },
        }
    }

    /// Handles a segment that arrived for a socket in SYN-RCVD: the last
    /// step of a passive open. See `synrcvd_step` for the exact effect;
    /// in particular a segment whose acknowledgment lies outside
    /// `[send_unacked, send_next]` changes nothing.
    pub fn synrcvd_handler(&mut self, sock_id: SockID, packet: &TCPPacket)
        requires
            old(self).wf(),
            old(self).has_sock(sock_id),
            old(self).sock(sock_id).status == TcpStatus::SynRcvd,
        ensures
            final(self).wf(),
            synrcvd_step(*old(self), *final(self), sock_id, *packet),
    {
        let ghost pre = *self;
        let i = match self.find_socket(sock_id) {
            Some(i) => i,
            None => {
                proof {
                    assert(false);
                }
                0
            },
        };
        proof {
            lemma_table_witness(pre.socks(), i as int);
        }
        let acceptable = {
            let s = &self.sockets[i];
            packet.flag & tcpflags::ACK != 0 && s.send_param.unacked_seq <= packet.ack
                && packet.ack <= s.send_param.next
        };
        if !acceptable {
            return;
        }
        let s = vstd::std_specs::vec::vec_index_mut(&mut self.sockets, i);
        s.recv_param.next = packet.seq;
        s.send_param.unacked_seq = packet.ack;
        s.status = TcpStatus::Established;
        let lsock = s.listening_socket;
        let ghost mid = *self;
        proof {
            let s1 = mid.socks()[i as int];
            lemma_table_update(pre.socks(), s1, i as int);
            lemma_update_keeps_table_wf(pre.socks(), s1, i as int);
        }
        match lsock {
            Some(lid) => {
                let li = match self.find_socket(lid) {
                    Some(li) => li,
                    None => {
                        proof {
                            assert(mid.socks()[i as int].listening_socket == Some(lid));
                            assert(table_has(mid.socks(), lid));
                            assert(false);
                        }
                        0
                    },
                };
                proof {
                    lemma_table_witness(mid.socks(), li as int);
                    if lid == sock_id {
                        if li != i {
                            assert(mid.socks()[li as int].sock_id_spec() != mid.socks()[
                                i as int].sock_id_spec());
                        }
                    }
                }
                let ls = vstd::std_specs::vec::vec_index_mut(&mut self.sockets, li);
                ls.connected_connection_queue.push(sock_id);
                proof {
                    let l1 = self.sockets@[li as int];
                    lemma_table_update(mid.socks(), l1, li as int);
                    lemma_update_keeps_table_wf(mid.socks(), l1, li as int);
                }
                self.publish_event(lid, TCPEventKind::ConnectionCompleted);
                proof {
                    let post = *self;
                    assert forall|id2: SockID| id2 != sock_id && id2 != lid implies (table_has(
                        pre.socks(),
                        id2,
                    ) <==> #[trigger] table_has(post.socks(), id2)) by {
                        assert(table_has(pre.socks(), id2) <==> table_has(mid.socks(), id2));
                        assert(table_has(mid.socks(), id2) <==> table_has(post.socks(), id2));
                    }
                    assert forall|id2: SockID|
                        id2 != sock_id && id2 != lid && table_has(pre.socks(), id2)
                        implies #[trigger] table_sock(post.socks(), id2) == table_sock(
                        pre.socks(),
                        id2,
                    ) by {
                        assert(table_has(mid.socks(), id2));
                        assert(table_sock(mid.socks(), id2) == table_sock(pre.socks(), id2));
                        assert(table_sock(post.socks(), id2) == table_sock(mid.socks(), id2));
                    }
                }
            },
            None => {},
        }
    }

    /// Handles a segment that arrived for a listener: a passive open.
    /// `isn` is the initial send sequence number for the spawned
    /// connection; the engine's dispatcher draws it at random from
    /// `[1, 2^31)`. Returns the SYN+ACK to transmit, if any. See
    /// `listen_step` for the exact effect.
    pub fn listen_handler(
        &mut self,
        listening_socket_id: SockID,
        packet: &TCPPacket,
        remote_addr: Ipv4Addr,
        isn: u32,
        now: u64,
    ) -> (r: Option<TCPPacket>)
        requires
            old(self).wf(),
            old(self).has_sock(listening_socket_id),
            old(self).sock(listening_socket_id).status == TcpStatus::Listen,
            1 <= isn < 0x80000000,
        ensures
            final(self).wf(),
            listen_step(
                *old(self),
                *final(self),
                listening_socket_id,
                *packet,
                remote_addr,
                isn,
                now,
                r,
            ),
    {
        let ghost pre = *self;
        if packet.flag & tcpflags::ACK != 0 {
            return None;
        }
        if packet.flag & tcpflags::SYN == 0 {
            return None;
        }
        let i = match self.find_socket(listening_socket_id) {
            Some(i) => i,
            None => {
                proof {
                    assert(false);
                }
                0
            },
        };
        proof {
            lemma_table_witness(pre.socks(), i as int);
        }
        let laddr = self.sockets[i].local_addr;
        let lport = self.sockets[i].local_port;
        let mut connection_socket = Socket::new(
            laddr,
            remote_addr,
            lport,
            packet.src_port,
            TcpStatus::SynRcvd,
        );
        connection_socket.recv_param.next = seq_plus1(packet.seq);
        connection_socket.recv_param.initial_seq = packet.seq;
        connection_socket.send_param.initial_seq = isn;
        connection_socket.send_param.window = packet.window_size;
        let empty: Vec<u8> = Vec::new();
        let rnxt = connection_socket.recv_param.next;
        let syn_ack = connection_socket.send_tcp_packet(
            isn,
            rnxt,
            tcpflags::SYN | tcpflags::ACK,
            &empty,
            now,
        );
        proof {
            assert((2u8 | 16u8) != 16u8) by (bit_vector);
            assert(!is_pure_ack(syn_ack));
        }
        connection_socket.send_param.next = isn + 1;
        connection_socket.send_param.unacked_seq = isn;
        connection_socket.listening_socket = Some(listening_socket_id);
        self.upsert_socket(connection_socket);
        Some(syn_ack)
    }

    /// Handles a segment that arrived for a socket in SYN-SENT: the
    /// second step of an active open. Returns the bare acknowledgment to
    /// transmit, if any. See `synsent_step` for the exact effect; in
    /// particular a segment without SYN, without ACK, or with an
    /// acknowledgment outside `[send_unacked, send_next]` changes nothing.
    pub fn synsent_handler(&mut self, sock_id: SockID, packet: &TCPPacket, now: u64) -> (r: Option<
        TCPPacket,
    >)
        requires
            old(self).wf(),
            old(self).has_sock(sock_id),
            old(self).sock(sock_id).status == TcpStatus::SynSent,
        ensures
            final(self).wf(),
            synsent_step(*old(self), *final(self), sock_id, *packet, r),
    {
        let ghost pre = *self;
        let i = match self.find_socket(sock_id) {
            Some(i) => i,
            None => {
                proof {
                    assert(false);
                }
                0
            },
        };
        proof {
            lemma_table_witness(pre.socks(), i as int);
        }
        let acceptable = {
            let s = &self.sockets[i];
            packet.flag & tcpflags::ACK != 0 && s.send_param.unacked_seq <= packet.ack
                && packet.ack <= s.send_param.next && packet.flag & tcpflags::SYN != 0
        };
        if !acceptable {
            return None;
        }
        let empty: Vec<u8> = Vec::new();
        let s = vstd::std_specs::vec::vec_index_mut(&mut self.sockets, i);
        s.recv_param.next = seq_plus1(packet.seq);
        s.recv_param.initial_seq = packet.seq;
        s.send_param.unacked_seq = packet.ack;
        s.send_param.window = packet.window_size;
        let established = s.send_param.unacked_seq > s.send_param.initial_seq;
        if established {
            s.status = TcpStatus::Established;
        } else {
            s.status = TcpStatus::SynRcvd;
        }
        let nxt = s.send_param.next;
        let rnxt = s.recv_param.next;
        let ack_pkt = s.send_tcp_packet(nxt, rnxt, tcpflags::ACK, &empty, now);
        proof {
            let s1 = self.sockets@[i as int];
            assert(s1.retransmission_queue@ == pre.sock(sock_id).retransmission_queue@);
            lemma_table_update(pre.socks(), s1, i as int);
            lemma_update_keeps_table_wf(pre.socks(), s1, i as int);
        }
        if established {
            self.publish_event(sock_id, TCPEventKind::ConnectionCompleted);
        }
        Some(ack_pkt)
    }

    /// Scans the table for an entry occupying local port `p`.
    fn port_free(&self, p: u16) -> (r: bool)
        ensures
            r == !self.port_in_use(p),
    {
        let mut i: usize = 0;
        while i < self.sockets.len()
            invariant
                i <= self.socks().len(),
                forall|j: int| 0 <= j < i ==> (#[trigger] self.socks()[j]).local_port != p,
            decreases self.socks().len() - i,
        {
            if self.sockets[i].local_port == p {
                return false;
            }
            i = i + 1;
        }
        true
    }

    /// Draws ports uniformly at random from the ephemeral range, up to
    /// range-size times, until one no table entry occupies is found — a
    /// collision-avoidance heuristic, not a reservation. When every port
    /// of the range is occupied, every draw fails and the range is
    /// reported exhausted; when none is occupied, the first draw succeeds
    /// and success is owed.
    pub fn select_unused_port(&self) -> (r: Result<u16, TcpError>)
        ensures
            r matches Ok(p) ==> PORT_RANGE_START <= p < PORT_RANGE_END && !self.port_in_use(p),
            r is Err ==> r == Err::<u16, TcpError>(TcpError::NoAvailablePort),
            (forall|p: u16|
                PORT_RANGE_START <= p < PORT_RANGE_END ==> self.port_in_use(p)) ==> r is Err,
            (forall|p: u16|
                PORT_RANGE_START <= p < PORT_RANGE_END ==> !self.port_in_use(p)) ==> r is Ok,
    {
        let mut tries: u16 = 0;
        while tries < PORT_RANGE_END - PORT_RANGE_START
            invariant
                tries <= PORT_RANGE_END - PORT_RANGE_START,
                tries > 0 ==> exists|p: u16|
                    PORT_RANGE_START <= p < PORT_RANGE_END && #[trigger] self.port_in_use(p),
            decreases PORT_RANGE_END - PORT_RANGE_START - tries,
        {
            let local_port = random_in_range_u32(
                PORT_RANGE_START as u32,
                PORT_RANGE_END as u32,
            ) as u16;
            if self.port_free(local_port) {
                return Ok(local_port);
            }
            proof {
                assert(PORT_RANGE_START <= local_port < PORT_RANGE_END && self.port_in_use(
                    local_port,
                ));
            }
            tries = tries + 1;
        }
        Err(TcpError::NoAvailablePort)
    }

    /// Active open: picks an unused ephemeral port at random, registers a
    /// SYN-SENT socket for (`local_addr`, chosen port) → (`addr`, `port`)
    /// with a random initial sequence number in `[1, 2^31)`, and returns
    /// the identity together with the opening SYN (already queued for
    /// retransmission, stamped `now`). The caller transmits the SYN and
    /// then blocks until a connection-completed event for the identity is
    /// published. Fails — leaving the engine untouched — only when the
    /// whole ephemeral range is found occupied; with the whole range
    /// free, every draw must land on a free port, so success is owed.
    /// `local_addr` comes from the caller's source-address resolution.
    pub fn connect(&mut self, local_addr: Ipv4Addr, addr: Ipv4Addr, port: u16, now: u64) -> (r:
        Result<(SockID, TCPPacket), TcpError>)
        requires
            old(self).wf(),
        ensures
            final(self).wf(),
            r matches Err(e) ==> e == TcpError::NoAvailablePort && *final(self) == *old(self),
            (forall|p: u16|
                PORT_RANGE_START <= p < PORT_RANGE_END ==> old(self).port_in_use(p)) ==> r is Err,
            (forall|p: u16|
                PORT_RANGE_START <= p < PORT_RANGE_END ==> !old(self).port_in_use(p)) ==> r is Ok,
            r matches Ok((sock_id, syn)) ==> {
                &&& sock_id.0 == local_addr
                &&& sock_id.1 == addr
                &&& PORT_RANGE_START <= sock_id.2 < PORT_RANGE_END
                &&& sock_id.3 == port
                &&& !old(self).port_in_use(sock_id.2)
                &&& !old(self).has_sock(sock_id)
                &&& final(self).has_sock(sock_id)
                &&& ({
                    let s = final(self).sock(sock_id);
                    &&& s.local_addr == local_addr
                    &&& s.remote_addr == addr
                    &&& s.local_port == sock_id.2
                    &&& s.remote_port == port
                    &&& s.status == TcpStatus::SynSent
                    &&& 1 <= s.send_param.initial_seq < 0x80000000
                    &&& s.send_param.unacked_seq == s.send_param.initial_seq
                    &&& s.send_param.next == s.send_param.initial_seq + 1
                    &&& s.send_param.window == SOCKET_BUFFER_SIZE
                    &&& s.recv_param == (RecvParam {
                        next: 0,
                        window: SOCKET_BUFFER_SIZE,
                        initial_seq: 0,
                        tail: 0,
                    })
                    &&& s.listening_socket is None
                    &&& s.connected_connection_queue@.len() == 0
                    &&& s.retransmission_queue@.len() == 1
                    &&& s.retransmission_queue@[0].latest_transmission_time == now
                    &&& s.retransmission_queue@[0].transmission_count == 1
                    &&& pkt_eq(s.retransmission_queue@[0].packet, syn)
                    &&& syn.src_port == sock_id.2
                    &&& syn.dst_port == port
                    &&& syn.seq == s.send_param.initial_seq
                    &&& syn.ack == 0
                    &&& syn.data_offset == 5
                    &&& syn.flag == tcpflags::SYN
                    &&& syn.window_size == SOCKET_BUFFER_SIZE
                    &&& syn.payload@.len() == 0
                    &&& valid_checksum(local_addr, addr, spec_encode(syn))
                })
                &&& table_same_except(old(self).socks(), final(self).socks(), sock_id)
                &&& final(self).event == old(self).event
            },
    {
        let ghost pre = *self;
        let local_port = match self.select_unused_port() {
            Ok(p) => p,
            Err(e) => {
                return Err(e);
            },
        };
        let mut socket = Socket::new(local_addr, addr, local_port, port, TcpStatus::SynSent);
        let isn = random_in_range_u32(1, 0x80000000);
        socket.send_param.initial_seq = isn;
        let empty: Vec<u8> = Vec::new();
        let syn = socket.send_tcp_packet(isn, 0, tcpflags::SYN, &empty, now);
        socket.send_param.unacked_seq = isn;
        socket.send_param.next = isn + 1;
        let sock_id = socket.get_sock_id();
        proof {
            assert(!is_pure_ack(syn));
            if table_has(pre.socks(), sock_id) {
                let j = table_idx(pre.socks(), sock_id);
                assert(pre.socks()[j].local_port == local_port);
                assert(table_port_in_use(pre.socks(), local_port));
            }
        }
        self.upsert_socket(socket);
        Ok((sock_id, syn))
    }

    /// The dispatcher's decision for one inbound TCP payload: parse the
    /// bytes, find the owning socket (exact 4-tuple first, then wildcard
    /// listener), validate the checksum over the raw bytes, and run the
    /// handler the socket's status selects. Returns the segment to
    /// transmit back to the peer, if any. Unparseable, unowned and
    /// corrupted segments are dropped silently, never an error.
    pub fn on_segment(
        &mut self,
        local_addr: Ipv4Addr,
        remote_addr: Ipv4Addr,
        data: &Vec<u8>,
        now: u64,
    ) -> (r: Option<TCPPacket>)
        requires
            old(self).wf(),
        ensures
            final(self).wf(),
            !parseable(data@) ==> *final(self) == *old(self) && r is None,
            parseable(data@) ==> exists|p: TCPPacket| #[trigger]
                parses_to(data@, p) && on_segment_outcome(
                    *old(self),
                    *final(self),
                    local_addr,
                    remote_addr,
                    p,
                    data@,
                    now,
                    r,
                ),
    {
        let ghost pre = *self;
        let packet = match crate::packet::parse(data) {
            Some(p) => p,
            None => {
                return None;
            },
        };
        let exact = SockID(local_addr, remote_addr, packet.dst_port, packet.src_port);
        let wildcard = SockID(
            local_addr,
            Ipv4Addr::unspecified(),
            packet.dst_port,
            UNDETERMINED_PORT,
        );
        let tid = match self.find_socket(exact) {
            Some(_) => exact,
            None => match self.find_socket(wildcard) {
                Some(_) => wildcard,
                None => {
                    proof {
                        assert(parses_to(data@, packet) && on_segment_outcome(
                            pre,
                            *self,
                            local_addr,
                            remote_addr,
                            packet,
                            data@,
                            now,
                            None,
                        ));
                    }
                    return None;
                },
            },
        };
        if !crate::packet::validate_bytes(local_addr, remote_addr, data) {
            proof {
                assert(parses_to(data@, packet) && on_segment_outcome(
                    pre,
                    *self,
                    local_addr,
                    remote_addr,
                    packet,
                    data@,
                    now,
                    None,
                ));
            }
            return None;
        }
        let i = match self.find_socket(tid) {
            Some(i) => i,
            None => {
                proof {
                    assert(false);
                }
                0
            },
        };
        proof {
            lemma_table_witness(pre.socks(), i as int);
        }
        let status = self.sockets[i].status;
        let out = match status {
            TcpStatus::Listen => {
                let isn = random_in_range_u32(1, 0x80000000);
                let o = self.listen_handler(tid, &packet, remote_addr, isn, now);
                proof {
                    assert(1 <= isn < 0x80000000 && listen_step(
                        pre,
                        *self,
                        tid,
                        packet,
                        remote_addr,
                        isn,
                        now,
                        o,
                    ));
                }
                o
            },
            TcpStatus::SynRcvd => {
                self.synrcvd_handler(tid, &packet);
                None
            },
            TcpStatus::SynSent => self.synsent_handler(tid, &packet, now),
            _ => None,
        };
        proof {
            assert(parses_to(data@, packet) && on_segment_outcome(
                pre,
                *self,
                local_addr,
                remote_addr,
                packet,
                data@,
                now,
                out,
            ));
        }
        out
    }

    /// One pass of the retransmission scanner at time `now`: every
    /// socket's queue is walked; an entry older than the timeout is
    /// handed back for resending verbatim, restamped and its attempt
    /// count incremented, until the attempt limit is reached, after which
    /// it is dropped as undeliverable. Returns the (destination, segment)
    /// pairs to put on the wire, in table order.
    pub fn on_timer_tick(&mut self, now: u64) -> (r: Vec<(Ipv4Addr, TCPPacket)>)
        requires
            old(self).wf(),
        ensures
            final(self).wf(),
            final(self).event == old(self).event,
            final(self).socks().len() == old(self).socks().len(),
            forall|k: int|
                0 <= k < old(self).socks().len() ==> socket_ticked(
                    old(self).socks()[k],
                    #[trigger] final(self).socks()[k],
                    now,
                ),
            pairs_match(r@, table_resends(old(self).socks(), now)),
    {
        let ghost pre = self.sockets@;
        let ghost ev0 = self.event;
        let mut out: Vec<(Ipv4Addr, TCPPacket)> = Vec::new();
        proof {
            assert(pre.subrange(0, 0) =~= Seq::<Socket>::empty());
        }
        let mut i: usize = 0;
        while i < self.sockets.len()
            invariant
                i <= pre.len(),
                self.sockets@.len() == pre.len(),
                self.event == ev0,
                forall|k: int| i <= k < pre.len() ==> #[trigger] self.sockets@[k] == pre[k],
                forall|k: int|
                    0 <= k < i ==> socket_ticked(pre[k], #[trigger] self.sockets@[k], now),
                pairs_match(out@, table_resends(pre.subrange(0, i as int), now)),
            decreases pre.len() - i,
        {
            let ghost pre_i = self.sockets@[i as int];
            let remote = self.sockets[i].remote_addr;
            let mut q: Vec<crate::socket::RetransmissionQueueEntry> = Vec::new();
            let s = vstd::std_specs::vec::vec_index_mut(&mut self.sockets, i);
            core::mem::swap(&mut s.retransmission_queue, &mut q);
            let ghost q0 = q@;
            let ghost base = table_resends(pre.subrange(0, i as int), now);
            proof {
                assert(q0.subrange(0, 0) =~= Seq::<crate::socket::RetransmissionQueueEntry>::empty());
                assert(q0.subrange(0, q0.len() as int) =~= q0);
                assert(out@ + queue_resends(q0.subrange(0, 0), remote, now) =~= out@);
            }
            let mut new_q: Vec<crate::socket::RetransmissionQueueEntry> = Vec::new();
            while q.len() > 0
                invariant
                    q@.len() <= q0.len(),
                    q@ == q0.subrange(q0.len() - q@.len(), q0.len() as int),
                    new_q@ == queue_after_tick(
                        q0.subrange(0, q0.len() - q@.len()),
                        now,
                    ),
                    pairs_match(
                        out@,
                        base + queue_resends(q0.subrange(0, q0.len() - q@.len()), remote, now),
                    ),
                decreases q@.len(),
            {
                let ghost j = q0.len() - q@.len();
                let e = q.remove(0);
                proof {
                    assert(e == q0[j as int]);
                    assert(q@ =~= q0.subrange(q0.len() - q@.len(), q0.len() as int));
                    assert(q0.subrange(0, j as int + 1).drop_last() =~= q0.subrange(0, j as int));
                    assert(q0.subrange(0, j as int + 1).last() == q0[j as int]);
                }
                let expired = now >= RETRANSMISSION_TIMEOUT && e.latest_transmission_time <= now
                    - RETRANSMISSION_TIMEOUT;
                proof {
                    assert(expired == entry_expired(q0[j as int], now));
                }
                if !expired {
                    new_q.push(e);
                } else if e.transmission_count < MAX_TRANSMISSION {
                    let pkt = e.packet.clone();
                    out.push((remote, pkt));
                    let refreshed = crate::socket::RetransmissionQueueEntry {
                        packet: e.packet,
                        latest_transmission_time: now,
                        transmission_count: e.transmission_count + 1,
                    };
                    new_q.push(refreshed);
                    proof {
                        let spec_pairs = base + queue_resends(
                            q0.subrange(0, j as int + 1),
                            remote,
                            now,
                        );
                        assert(out@.len() == spec_pairs.len());
                    }
                }
                proof {
                    assert(new_q@ == queue_after_tick(q0.subrange(0, j as int + 1), now));
                }
            }
            proof {
                assert(q0.subrange(0, q0.len() - q@.len()) =~= q0);
            }
            s.retransmission_queue = new_q;
            proof {
                assert(socket_ticked(pre_i, *s, now));
            }
            i = i + 1;
            proof {
                assert(pre.subrange(0, i as int).drop_last() =~= pre.subrange(0, i as int - 1));
                assert(pre.subrange(0, i as int).last() == pre[i as int - 1]);
                assert(table_resends(pre.subrange(0, i as int), now) == table_resends(
                    pre.subrange(0, i as int - 1),
                    now,
                ) + queue_resends(pre_i.retransmission_queue@, pre_i.remote_addr, now));
            }
        }
        proof {
            assert(pre.subrange(0, pre.len() as int) =~= pre);
            lemma_ticked_table_wf(pre, self.sockets@, now);
        }
        out
    }

    /// A read-only view of the socket registered under `sock_id`.
    pub fn socket_entry(&self, sock_id: SockID) -> (r: Option<&Socket>)
        requires
            self.wf(),
        ensures
            match r {
                Some(s) => self.has_sock(sock_id) && *s == self.sock(sock_id),
                None => !self.has_sock(sock_id),
            },
    {
        match self.find_socket(sock_id) {
            Some(i) => {
                proof {
                    lemma_table_witness(self.socks(), i as int);
                }
                Some(&self.sockets[i])
            },
            None => None,
        }
    }
}

} // verus!
