//! Port conventions and packet construction shared by the demo endpoints.

use crate::packet::{Packet, MAX_PACKET_SIZE};
use vstd::prelude::*;

verus! {

/// The client endpoint's well-known local port.
pub fn get_port_client() -> (r: u16)
    ensures
        r == 8888,
{
    8888
}

/// The server endpoint's well-known local port.
pub fn get_port_server() -> (r: u16)
    ensures
        r == 8890,
{
    8890
}

/// A fresh protocol packet: the signature stamped, every bookkeeping field
/// zeroed, and a zero-filled payload padding it to the maximum size.
pub fn build_packet() -> (r: Packet)
    ensures
        r.header.signature == 0x4C494645u32,
        r.header.crc32 == 0,
        r.header.client_id == 0,
        r.header.sequence_number == 0,
        r.header.ack_num == 0,
        r.header.ack_bits == 0,
        r.data.raw_data@.len() == MAX_PACKET_SIZE - 28,
        forall|i: int| 0 <= i < r.data.raw_data@.len() ==> r.data.raw_data@[i] == 0u8,
{
    Packet::new()
}

} // verus!
