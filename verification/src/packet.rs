//! The TCP segment codec: logical segment fields, byte-level encoding,
//! parsing, and the 16-bit one's-complement checksum over the IPv4
//! pseudo-header (RFC 793 header layout, RFC 1071 checksum).

use vstd::prelude::*;

use crate::tcpflags;
use crate::Ipv4Addr;

verus! {

/// Length in bytes of a TCP header without options.
pub const TCP_HEADER_LEN: usize = 20;

/// The protocol number that identifies TCP in the IPv4 pseudo-header.
pub const TCP_PROTOCOL_NUMBER: u16 = 6;

/// Longest payload a segment can carry: the 16-bit pseudo-header length
/// field must hold the header plus the payload.
pub const MAX_PAYLOAD_LEN: usize = 65515;

/// One TCP segment, held as logical fields rather than raw bytes.
/// `data_offset` counts 32-bit words of header; segments built by this
/// codec carry no options, so it is always 5.
pub struct TCPPacket {
    pub src_port: u16,
    pub dst_port: u16,
    pub seq: u32,
    pub ack: u32,
    pub data_offset: u8,
    pub flag: u8,
    pub window_size: u16,
    pub checksum: u16,
    pub payload: Vec<u8>,
}

/// Field-for-field equality of two segments (payloads compared by content).
pub open spec fn pkt_eq(a: TCPPacket, b: TCPPacket) -> bool {
    &&& a.src_port == b.src_port
    &&& a.dst_port == b.dst_port
    &&& a.seq == b.seq
    &&& a.ack == b.ack
    &&& a.data_offset == b.data_offset
    &&& a.flag == b.flag
    &&& a.window_size == b.window_size
    &&& a.checksum == b.checksum
    &&& a.payload@ == b.payload@
}

/// A pure acknowledgment: empty payload and exactly the ACK flag.
/// Such a segment is never retransmitted.
pub open spec fn is_pure_ack(p: TCPPacket) -> bool {
    p.payload@.len() == 0 && p.flag == tcpflags::ACK
}

impl Clone for TCPPacket {
    /// Clones every field; the payload bytes are copied one for one.
    fn clone(&self) -> (r: Self)
        ensures
            pkt_eq(r, *self),
    {
        let r = TCPPacket {
            src_port: self.src_port,
            dst_port: self.dst_port,
            seq: self.seq,
            ack: self.ack,
            data_offset: self.data_offset,
            flag: self.flag,
            window_size: self.window_size,
            checksum: self.checksum,
            payload: self.payload.clone(),
        };
        proof {
            assert(r.payload@ =~= self.payload@);
        }
        r
    }
}

/// The 16-bit big-endian value formed by two bytes.
pub open spec fn word(hi: u8, lo: u8) -> u16 {
    (hi as int * 256 + lo as int) as u16
}

/// The 32-bit big-endian value formed by four bytes.
pub open spec fn quad(b0: u8, b1: u8, b2: u8, b3: u8) -> u32 {
    (b0 as int * 0x1000000 + b1 as int * 0x10000 + b2 as int * 256 + b3 as int) as u32
}

/// High byte of a 16-bit value.
pub open spec fn hi8(x: u16) -> u8 {
    (x / 256) as u8
}

/// Low byte of a 16-bit value.
pub open spec fn lo8(x: u16) -> u8 {
    (x % 256) as u8
}

/// Byte `i` (0 = most significant) of a 32-bit value.
pub open spec fn byte32(x: u32, i: int) -> u8 {
    if i == 0 {
        (x / 0x1000000) as u8
    } else if i == 1 {
        ((x / 0x10000) % 256) as u8
    } else if i == 2 {
        ((x / 256) % 256) as u8
    } else {
        (x % 256) as u8
    }
}

/// The 20 header bytes of a segment, in wire order: ports, sequence and
/// acknowledgment numbers, offset and flags, window, checksum, and an
/// urgent pointer of zero.
pub open spec fn spec_header(p: TCPPacket) -> Seq<u8> {
    seq![
        hi8(p.src_port),
        lo8(p.src_port),
        hi8(p.dst_port),
        lo8(p.dst_port),
        byte32(p.seq, 0),
        byte32(p.seq, 1),
        byte32(p.seq, 2),
        byte32(p.seq, 3),
        byte32(p.ack, 0),
        byte32(p.ack, 1),
        byte32(p.ack, 2),
        byte32(p.ack, 3),
        ((p.data_offset % 16) * 16) as u8,
        p.flag,
        hi8(p.window_size),
        lo8(p.window_size),
        hi8(p.checksum),
        lo8(p.checksum),
        0u8,
        0u8,
    ]
}

/// The full wire image of a segment: header followed by payload.
pub open spec fn spec_encode(p: TCPPacket) -> Seq<u8> {
    spec_header(p) + p.payload@
}

/// 16-bit word `i` of a byte sequence, big-endian, the last odd byte
/// padded with a zero low byte.
pub open spec fn word_at(b: Seq<u8>, i: int) -> u16 {
    if 2 * i + 1 < b.len() {
        word(b[2 * i], b[2 * i + 1])
    } else {
        word(b[2 * i], 0)
    }
}

/// A byte sequence grouped into big-endian 16-bit words.
pub open spec fn words_of(b: Seq<u8>) -> Seq<u16> {
    Seq::new(((b.len() + 1) / 2) as nat, |i: int| word_at(b, i))
}

/// The six pseudo-header words the checksum covers: source address,
/// destination address, the TCP protocol number, and the segment length.
pub open spec fn pseudo_header_words(local: Ipv4Addr, remote: Ipv4Addr, tcp_len: u16) -> Seq<u16> {
    seq![
        word(local.0, local.1),
        word(local.2, local.3),
        word(remote.0, remote.1),
        word(remote.2, remote.3),
        TCP_PROTOCOL_NUMBER,
        tcp_len,
    ]
}

/// All words the checksum is computed over: pseudo-header first, then the
/// segment bytes with the checksum word (word 8, bytes 16 and 17) read as
/// zero.
pub open spec fn checksum_words(local: Ipv4Addr, remote: Ipv4Addr, b: Seq<u8>) -> Seq<u16>
    recommends
        20 <= b.len() <= 0xFFFF,
{
    pseudo_header_words(local, remote, b.len() as u16) + words_of(b).update(8, 0u16)
}

/// One's-complement addition of two words: ordinary addition with the
/// carry out of bit 15 folded back into bit 0.
pub open spec fn oc_add(a: int, b: int) -> int {
    if a + b >= 0x10000 {
        a + b - 0xFFFF
    } else {
        a + b
    }
}

/// One's-complement sum of a word sequence, folded left to right.
pub open spec fn oc_sum(ws: Seq<u16>) -> int
    decreases ws.len(),
{
    if ws.len() == 0 {
        0
    } else {
        oc_add(oc_sum(ws.drop_last()), ws.last() as int)
    }
}

/// Plain integer sum of a word sequence.
pub open spec fn sum_of(ws: Seq<u16>) -> int
    decreases ws.len(),
{
    if ws.len() == 0 {
        0
    } else {
        sum_of(ws.drop_last()) + ws.last()
    }
}

/// The checksum a correctly framed segment carries: the one's complement
/// of the one's-complement sum of `checksum_words`.
pub open spec fn checksum_of(local: Ipv4Addr, remote: Ipv4Addr, b: Seq<u8>) -> u16
    recommends
        20 <= b.len() <= 0xFFFF,
{
    (0xFFFF - oc_sum(checksum_words(local, remote, b))) as u16
}

/// The checksum field as stored in a segment's bytes.
pub open spec fn stored_checksum(b: Seq<u8>) -> u16
    recommends
        b.len() >= 20,
{
    word(b[16], b[17])
}

/// A byte sequence passes checksum validation against an address pair
/// exactly when it is long enough to be a TCP segment, fits the 16-bit
/// pseudo-header length, and stores the checksum its bytes demand.
pub open spec fn valid_checksum(local: Ipv4Addr, remote: Ipv4Addr, b: Seq<u8>) -> bool {
    &&& 20 <= b.len() <= 0xFFFF
    &&& stored_checksum(b) == checksum_of(local, remote, b)
}

proof fn lemma_oc_sum_bounds(ws: Seq<u16>)
    ensures
        0 <= oc_sum(ws) <= 0xFFFF,
    decreases ws.len(),
{
    if ws.len() > 0 {
        lemma_oc_sum_bounds(ws.drop_last());
    }
}

proof fn lemma_oc_sum_push(ws: Seq<u16>, w: u16)
    ensures
        oc_sum(ws.push(w)) == oc_add(oc_sum(ws), w as int),
{
    assert(ws.push(w).drop_last() =~= ws);
    assert(ws.push(w).last() == w);
}

/// The one's-complement sum differs from the plain sum by a whole number
/// of `0xFFFF` steps; the lemma returns how many.
proof fn lemma_oc_sum_decompose(ws: Seq<u16>) -> (n: nat)
    ensures
        sum_of(ws) == oc_sum(ws) + 0xFFFF * n,
    decreases ws.len(),
{
    if ws.len() == 0 {
        0
    } else {
        let n0 = lemma_oc_sum_decompose(ws.drop_last());
        if oc_sum(ws.drop_last()) + ws.last() >= 0x10000 {
            n0 + 1
        } else {
            n0
        }
    }
}

proof fn lemma_sum_update(ws: Seq<u16>, j: int, w: u16)
    requires
        0 <= j < ws.len(),
    ensures
        sum_of(ws.update(j, w)) == sum_of(ws) - ws[j] + w,
    decreases ws.len(),
{
    if j == ws.len() - 1 {
        assert(ws.update(j, w).drop_last() =~= ws.drop_last());
    } else {
        assert(ws.update(j, w).drop_last() =~= ws.drop_last().update(j, w));
        lemma_sum_update(ws.drop_last(), j, w);
    }
}

/// Changing one word by less than `0xFFFF` always changes the
/// one's-complement sum.
proof fn lemma_oc_sum_change(ws: Seq<u16>, j: int, w: u16)
    requires
        0 <= j < ws.len(),
        w != ws[j],
        w - ws[j] < 0xFFFF,
        ws[j] - w < 0xFFFF,
    ensures
        oc_sum(ws.update(j, w)) != oc_sum(ws),
{
    let ws2 = ws.update(j, w);
    let n1 = lemma_oc_sum_decompose(ws);
    let n2 = lemma_oc_sum_decompose(ws2);
    lemma_sum_update(ws, j, w);
    if oc_sum(ws2) == oc_sum(ws) {
        let k = n2 as int - n1 as int;
        assert(0xFFFF * (n2 as int) - 0xFFFF * (n1 as int) == 0xFFFF * k) by (nonlinear_arith)
            requires
                k == n2 as int - n1 as int,
        ;
        assert(w - ws[j] == 0xFFFF * k);
        if k >= 1 {
            assert(0xFFFF * k >= 0xFFFF) by (nonlinear_arith)
                requires
                    k >= 1,
            ;
        } else if k <= -1 {
            assert(0xFFFF * k <= -0xFFFF) by (nonlinear_arith)
                requires
                    k <= -1,
            ;
        }
        assert(false);
    }
}

/// Changing byte `k` changes word `k / 2` and no other, and moves that
/// word by less than `0xFFFF`.
proof fn lemma_words_update_byte(b: Seq<u8>, k: int, x: u8)
    requires
        0 <= k < b.len(),
        x != b[k],
    ensures
        words_of(b.update(k, x)) == words_of(b).update(k / 2, word_at(b.update(k, x), k / 2)),
        word_at(b.update(k, x), k / 2) != word_at(b, k / 2),
        word_at(b.update(k, x), k / 2) - word_at(b, k / 2) < 0xFFFF,
        word_at(b, k / 2) - word_at(b.update(k, x), k / 2) < 0xFFFF,
{
    let b2 = b.update(k, x);
    let j = k / 2;
    assert(words_of(b2) =~= words_of(b).update(j, word_at(b2, j))) by {
        assert forall|i: int| 0 <= i < words_of(b).len() && i != j implies word_at(b2, i)
            == word_at(b, i) by {
            assert(2 * i != k && 2 * i + 1 != k);
        }
    }
    if k % 2 == 0 {
        assert(2 * j == k);
        assert(word_at(b2, j) - word_at(b, j) == (x as int - b[k] as int) * 256);
    } else {
        assert(2 * j + 1 == k);
        assert(word_at(b2, j) - word_at(b, j) == x as int - b[k] as int);
    }
}

/// The checksum computation reads the stored checksum word as zero, so it
/// does not depend on bytes 16 and 17.
proof fn lemma_checksum_ignores_checksum_field(
    local: Ipv4Addr,
    remote: Ipv4Addr,
    b1: Seq<u8>,
    b2: Seq<u8>,
)
    requires
        b1.len() == b2.len(),
        b1.len() >= 20,
        forall|i: int| 0 <= i < b1.len() && i != 16 && i != 17 ==> b1[i] == b2[i],
    ensures
        checksum_of(local, remote, b1) == checksum_of(local, remote, b2),
{
    assert(checksum_words(local, remote, b1) =~= checksum_words(local, remote, b2)) by {
        assert forall|i: int| 0 <= i < words_of(b1).len() && i != 8 implies word_at(b1, i)
            == word_at(b2, i) by {
            assert(2 * i != 16 && 2 * i != 17 && 2 * i + 1 != 16 && 2 * i + 1 != 17);
        }
    }
}

/// Law: a segment that validates against an address pair no longer
/// validates after any single byte of it is changed — the checksum
/// detects every one-byte corruption.
pub proof fn lemma_checksum_detects_byte_flip(
    local: Ipv4Addr,
    remote: Ipv4Addr,
    b: Seq<u8>,
    k: int,
    x: u8,
)
    requires
        valid_checksum(local, remote, b),
        0 <= k < b.len(),
        x != b[k],
    ensures
        !valid_checksum(local, remote, b.update(k, x)),
{
    let b2 = b.update(k, x);
    if k == 16 || k == 17 {
        lemma_checksum_ignores_checksum_field(local, remote, b, b2);
        assert(stored_checksum(b2) != stored_checksum(b));
    } else {
        assert(stored_checksum(b2) == stored_checksum(b));
        lemma_words_update_byte(b, k, x);
        let j = k / 2;
        assert(j != 8);
        let w2 = word_at(b2, j);
        let cw = checksum_words(local, remote, b);
        let cw2 = checksum_words(local, remote, b2);
        assert(cw2 =~= cw.update(6 + j, w2));
        assert(cw[6 + j] == word_at(b, j));
        lemma_oc_sum_change(cw, 6 + j, w2);
        lemma_oc_sum_bounds(cw);
        lemma_oc_sum_bounds(cw2);
        assert(checksum_of(local, remote, b2) != checksum_of(local, remote, b));
    }
}

impl TCPPacket {
    /// Writes the segment out in wire order: the 20 header bytes, then the
    /// payload.
    pub fn encode(&self) -> (r: Vec<u8>)
        requires
            self.payload@.len() <= MAX_PAYLOAD_LEN,
        ensures
            r@ == spec_encode(*self),
    {
        let mut r: Vec<u8> = Vec::new();
        r.push((self.src_port / 256) as u8);
        r.push((self.src_port % 256) as u8);
        r.push((self.dst_port / 256) as u8);
        r.push((self.dst_port % 256) as u8);
        r.push((self.seq / 0x1000000) as u8);
        r.push(((self.seq / 0x10000) % 256) as u8);
        r.push(((self.seq / 256) % 256) as u8);
        r.push((self.seq % 256) as u8);
        r.push((self.ack / 0x1000000) as u8);
        r.push(((self.ack / 0x10000) % 256) as u8);
        r.push(((self.ack / 256) % 256) as u8);
        r.push((self.ack % 256) as u8);
        r.push((self.data_offset % 16) * 16);
        r.push(self.flag);
        r.push((self.window_size / 256) as u8);
        r.push((self.window_size % 256) as u8);
        r.push((self.checksum / 256) as u8);
        r.push((self.checksum % 256) as u8);
        r.push(0);
        r.push(0);
        proof {
            assert(r@ =~= spec_header(*self));
        }
        let mut i: usize = 0;
        while i < self.payload.len()
            invariant
                i <= self.payload.len(),
                self.payload@.len() <= MAX_PAYLOAD_LEN,
                r@ == spec_header(*self) + self.payload@.subrange(0, i as int),
            decreases self.payload.len() - i,
        {
            r.push(self.payload[i]);
            i = i + 1;
            proof {
                assert(r@ =~= spec_header(*self) + self.payload@.subrange(0, i as int));
            }
        }
        proof {
            assert(self.payload@.subrange(0, self.payload@.len() as int) =~= self.payload@);
        }
        r
    }
}

/// Folds one more word into a running one's-complement sum.
fn oc_fold(acc: u32, w: u16) -> (r: u32)
    requires
        acc <= 0xFFFF,
    ensures
        r == oc_add(acc as int, w as int),
        r <= 0xFFFF,
{
    let s = acc + w as u32;
    if s >= 0x10000 {
        s - 0xFFFF
    } else {
        s
    }
}

/// Computes the checksum the byte image `b` should store when sent from
/// `local` to `remote`: the pseudo-header words and the segment words are
/// summed in one's-complement arithmetic, the stored checksum word read
/// as zero, and the sum complemented.
pub fn compute_checksum(local: Ipv4Addr, remote: Ipv4Addr, b: &Vec<u8>) -> (r: u16)
    requires
        20 <= b@.len() <= 0xFFFF,
    ensures
        r == checksum_of(local, remote, b@),
{
    let ghost cw = checksum_words(local, remote, b@);
    let len16 = b.len() as u16;
    let mut words: Vec<u16> = Vec::new();
    words.push((local.0 as u16) * 256 + local.1 as u16);
    words.push((local.2 as u16) * 256 + local.3 as u16);
    words.push((remote.0 as u16) * 256 + remote.1 as u16);
    words.push((remote.2 as u16) * 256 + remote.3 as u16);
    words.push(TCP_PROTOCOL_NUMBER);
    words.push(len16);
    proof {
        assert(words@ =~= cw.subrange(0, 6));
    }
    let n_words = (b.len() + 1) / 2;
    let mut i: usize = 0;
    while i < n_words
        invariant
            i <= n_words,
            n_words == (b@.len() + 1) / 2,
            20 <= b@.len() <= 0xFFFF,
            cw == checksum_words(local, remote, b@),
            cw.len() == 6 + n_words,
            words@ == cw.subrange(0, 6 + i as int),
        decreases n_words - i,
    {
        let w: u16 = if i == 8 {
            0
        } else {
            let hi = b[2 * i];
            let lo: u8 = if 2 * i + 1 < b.len() {
                b[2 * i + 1]
            } else {
                0
            };
            (hi as u16) * 256 + lo as u16
        };
        proof {
            assert(cw[6 + i as int] == words_of(b@).update(8, 0u16)[i as int]);
            assert(w == cw[6 + i as int]);
        }
        words.push(w);
        i = i + 1;
        proof {
            assert(words@ =~= cw.subrange(0, 6 + i as int));
        }
    }
    proof {
        assert(words@ =~= cw);
    }
    let mut acc: u32 = 0;
    let mut j: usize = 0;
    while j < words.len()
        invariant
            j <= words@.len(),
            acc <= 0xFFFF,
            acc == oc_sum(words@.subrange(0, j as int)),
        decreases words@.len() - j,
    {
        proof {
            assert(words@.subrange(0, j as int + 1) =~= words@.subrange(0, j as int).push(
                words@[j as int],
            ));
            lemma_oc_sum_push(words@.subrange(0, j as int), words@[j as int]);
        }
        acc = oc_fold(acc, words[j]);
        j = j + 1;
    }
    proof {
        assert(words@.subrange(0, words@.len() as int) =~= words@);
    }
    0xFFFF - (acc as u16)
}

/// Builds a fully framed segment: all fields as given, no options
/// (data offset 5), and the checksum the bytes demand for the address
/// pair. The result always passes `valid_checksum` — the round-trip half
/// of the checksum law.
pub fn build_packet(
    local: Ipv4Addr,
    remote: Ipv4Addr,
    src_port: u16,
    dst_port: u16,
    seq: u32,
    ack: u32,
    flag: u8,
    window_size: u16,
    payload: &Vec<u8>,
) -> (r: TCPPacket)
    requires
        payload@.len() <= MAX_PAYLOAD_LEN,
    ensures
        r.src_port == src_port,
        r.dst_port == dst_port,
        r.seq == seq,
        r.ack == ack,
        r.data_offset == 5,
        r.flag == flag,
        r.window_size == window_size,
        r.payload@ == payload@,
        r.checksum == checksum_of(local, remote, spec_encode(r)),
        valid_checksum(local, remote, spec_encode(r)),
{
    let mut p = TCPPacket {
        src_port,
        dst_port,
        seq,
        ack,
        data_offset: 5,
        flag,
        window_size,
        checksum: 0,
        payload: payload.clone(),
    };
    proof {
        assert(p.payload@ =~= payload@);
    }
    let bytes = p.encode();
    let c = compute_checksum(local, remote, &bytes);
    let ghost p0 = p;
    p.checksum = c;
    proof {
        assert(spec_encode(p).len() == spec_encode(p0).len());
        assert forall|i: int| 0 <= i < spec_encode(p).len() && i != 16 && i != 17 implies spec_encode(
            p0,
        )[i] == spec_encode(p)[i] by {}
        lemma_checksum_ignores_checksum_field(local, remote, spec_encode(p0), spec_encode(p));
        assert(stored_checksum(spec_encode(p)) == word(hi8(c), lo8(c)));
        assert(word(hi8(c), lo8(c)) == c);
    }
    p
}

impl TCPPacket {
    /// True exactly when the segment's wire image stores the checksum its
    /// bytes demand for this address pair. A mismatch marks the segment
    /// for silent discard.
    pub fn is_correct_checksum(&self, local: Ipv4Addr, remote: Ipv4Addr) -> (r: bool)
        requires
            self.payload@.len() <= MAX_PAYLOAD_LEN,
        ensures
            r == valid_checksum(local, remote, spec_encode(*self)),
    {
        let bytes = self.encode();
        let c = compute_checksum(local, remote, &bytes);
        proof {
            assert(stored_checksum(spec_encode(*self)) == word(hi8(self.checksum), lo8(self.checksum)));
            assert(word(hi8(self.checksum), lo8(self.checksum)) == self.checksum);
        }
        c == self.checksum
    }
}

/// Checksum validation on a raw inbound byte buffer, before it is parsed.
pub fn validate_bytes(local: Ipv4Addr, remote: Ipv4Addr, b: &Vec<u8>) -> (r: bool)
    ensures
        r == valid_checksum(local, remote, b@),
{
    if b.len() < TCP_HEADER_LEN || b.len() > 0xFFFF {
        return false;
    }
    let c = compute_checksum(local, remote, b);
    let stored = (b[16] as u16) * 256 + b[17] as u16;
    stored == c
}

/// What a byte buffer must look like for `parse` to accept it: room for
/// the fixed header, an option-aware data offset of at least 5 words, and
/// a header that does not run past the buffer.
pub open spec fn parseable(b: Seq<u8>) -> bool {
    &&& b.len() >= 20
    &&& b[12] / 16 >= 5
    &&& 4 * (b[12] / 16) <= b.len()
}

/// The logical fields `parse` extracts from a byte buffer: every header
/// field big-endian from its wire position, and the payload everything
/// past the header.
pub open spec fn parses_to(b: Seq<u8>, p: TCPPacket) -> bool {
    &&& p.src_port == word(b[0], b[1])
    &&& p.dst_port == word(b[2], b[3])
    &&& p.seq == quad(b[4], b[5], b[6], b[7])
    &&& p.ack == quad(b[8], b[9], b[10], b[11])
    &&& p.data_offset == b[12] / 16
    &&& p.flag == b[13]
    &&& p.window_size == word(b[14], b[15])
    &&& p.checksum == word(b[16], b[17])
    &&& p.payload@ == b.subrange(4 * (b[12] / 16) as int, b.len() as int)
}

/// Parses an inbound byte buffer into logical segment fields; anything
/// too short or with a malformed data offset is rejected with `None`.
pub fn parse(b: &Vec<u8>) -> (r: Option<TCPPacket>)
    ensures
        r is Some <==> parseable(b@),
        r matches Some(p) ==> parses_to(b@, p),
{
    if b.len() < TCP_HEADER_LEN {
        return None;
    }
    let offset = b[12] / 16;
    if offset < 5 {
        return None;
    }
    let header_len = 4 * (offset as usize);
    if header_len > b.len() {
        return None;
    }
    let mut payload: Vec<u8> = Vec::new();
    let mut i: usize = header_len;
    while i < b.len()
        invariant
            header_len <= i <= b@.len(),
            payload@ == b@.subrange(header_len as int, i as int),
        decreases b@.len() - i,
    {
        payload.push(b[i]);
        i = i + 1;
        proof {
            assert(payload@ =~= b@.subrange(header_len as int, i as int));
        }
    }
    Some(
        TCPPacket {
            src_port: (b[0] as u16) * 256 + b[1] as u16,
            dst_port: (b[2] as u16) * 256 + b[3] as u16,
            seq: (b[4] as u32) * 0x1000000 + (b[5] as u32) * 0x10000 + (b[6] as u32) * 256 + b[7]
                as u32,
            ack: (b[8] as u32) * 0x1000000 + (b[9] as u32) * 0x10000 + (b[10] as u32) * 256 + b[11]
                as u32,
            data_offset: offset,
            flag: b[13],
            window_size: (b[14] as u16) * 256 + b[15] as u16,
            checksum: (b[16] as u16) * 256 + b[17] as u16,
            payload,
        },
    )
}

} // verus!
