//! A user-space TCP connection-management core: packet codec with the
//! standard one's-complement checksum, per-connection state machine,
//! socket table, and retransmission bookkeeping.
//!
//! The engine is a pure state machine: callers hand it parsed segments,
//! timestamps and addresses, and it hands back the segments to transmit.
//! Raw packet I/O, threads and blocking live outside this crate.

pub mod packet;
pub mod socket;
pub mod tcp;
pub mod tcpflags;

use vstd::prelude::*;

verus! {

/// An IPv4 address as four octets, most significant first.
#[derive(Debug, Hash, Eq, PartialEq, Clone, Copy, Structural)]
pub struct Ipv4Addr(pub u8, pub u8, pub u8, pub u8);

impl Ipv4Addr {
    pub fn new(a: u8, b: u8, c: u8, d: u8) -> (r: Ipv4Addr)
        ensures
            r == Ipv4Addr(a, b, c, d),
    {
        Ipv4Addr(a, b, c, d)
    }

    /// The sentinel "undetermined" address a listener carries in place of
    /// a remote address.
    pub fn unspecified() -> (r: Ipv4Addr)
        ensures
            r == Ipv4Addr(0u8, 0u8, 0u8, 0u8),
    {
        Ipv4Addr(0, 0, 0, 0)
    }
}

} // verus!
