//! TCP control-flag bits as they sit in the header's flag byte.

use vstd::prelude::*;

verus! {

pub const FIN: u8 = 1;

pub const SYN: u8 = 2;

pub const RST: u8 = 4;

pub const PSH: u8 = 8;

pub const ACK: u8 = 16;

pub const URG: u8 = 32;

} // verus!
