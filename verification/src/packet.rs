//! The wire packet model: a fixed-layout header (signature, CRC-32 checksum,
//! client id, sequence number, ack number, ack bitmask) followed by a raw
//! payload. The byte-for-byte encoding of a packet is the host layer's
//! business; the library only works on the decoded fields.

use crate::utils::{hash, spec_client_digest};
use vstd::prelude::*;
use vstd::string::StringSliceAdditionalSpecFns;
use vstd::utf8::encode_utf8;

verus! {

/// Largest datagram the layer will put on the wire, header included.
pub const MAX_PACKET_SIZE: usize = 1472;

/// Bytes the fixed header occupies on the wire: two `u32` words (signature,
/// checksum), one `u64` (client id) and three more `u32` words (sequence
/// number, ack number, ack bits).
pub fn get_packet_header_size() -> (r: usize)
    ensures
        r == 28,
{
    28
}

/// The fixed wire header.
#[derive(Clone, Copy, Debug, PartialEq, Eq, Structural)]
pub struct UDPHeader {
    pub signature: u32,
    pub crc32: u32,
    pub client_id: u64,
    pub sequence_number: u32,
    pub ack_num: u32,
    pub ack_bits: u32,
}

/// The raw payload that follows the header.
#[derive(Debug)]
pub struct UDPData {
    pub raw_data: Vec<u8>,
}

/// A decoded packet: header plus payload.
#[derive(Debug)]
pub struct Packet {
    pub header: UDPHeader,
    pub data: UDPData,
}

fn clone_bytes(v: &Vec<u8>) -> (r: Vec<u8>)
    ensures
        r@ == v@,
{
    let mut r: Vec<u8> = Vec::new();
    let mut i: usize = 0;
    while i < v.len()
        invariant
            i <= v@.len(),
            r@ == v@.subrange(0, i as int),
        decreases v@.len() - i,
    {
        r.push(v[i]);
        proof {
            assert(r@ =~= v@.subrange(0, i + 1));
        }
        i = i + 1;
    }
    proof {
        assert(r@ =~= v@);
    }
    r
}

impl Clone for UDPData {
    fn clone(&self) -> (res: Self)
        ensures
            res.raw_data@ == self.raw_data@,
    {
        UDPData { raw_data: clone_bytes(&self.raw_data) }
    }
}

impl Clone for Packet {
    fn clone(&self) -> (res: Self)
        ensures
            res.header == self.header,
            res.data.raw_data@ == self.data.raw_data@,
    {
        Packet { header: self.header, data: self.data.clone() }
    }
}

/// A measure of how many bytes a value occupies on the wire.
pub trait MyLen {
    fn len(&self) -> usize;
}

impl MyLen for Packet {
    fn len(&self) -> usize {
        self.data.raw_data.len().saturating_add(28)
    }
}

/// The IEEE CRC-32 digest of a byte sequence, as the checksum routine
/// computes it.
pub uninterp spec fn crc32_ieee_of(bytes: Seq<u8>) -> u32;

/// Relies on `crc::crc32::checksum_ieee`: the IEEE CRC-32 of the bytes,
/// a function of the bytes alone.
#[verifier::external_body]
fn crc32_checksum(bytes: &Vec<u8>) -> (r: u32)
    ensures
        r == crc32_ieee_of(bytes@),
{
    crc::crc32::checksum_ieee(bytes.as_slice())
}

impl Packet {
    /// A fresh packet: the protocol signature, zeroed bookkeeping fields,
    /// and a zero-filled payload that pads the packet to `MAX_PACKET_SIZE`.
    pub fn new() -> (r: Packet)
        ensures
            r.header.signature == 0x4C494645u32,
            r.header.crc32 == 0,
            r.header.client_id == 0,
            r.header.sequence_number == 0,
            r.header.ack_num == 0,
            r.header.ack_bits == 0,
            r.data.raw_data@.len() == MAX_PACKET_SIZE - 28,
            forall|i: int| 0 <= i < r.data.raw_data@.len() ==> r.data.raw_data@[i] == 0u8,
    {
        let payload_len: usize = MAX_PACKET_SIZE - 28;
        let mut raw_data: Vec<u8> = Vec::new();
        let mut i: usize = 0;
        while i < payload_len
            invariant
                i <= payload_len,
                raw_data@.len() == i,
                forall|j: int| 0 <= j < i ==> raw_data@[j] == 0u8,
            decreases payload_len - i,
        {
            raw_data.push(0);
            i = i + 1;
        }
        Packet {
            header: UDPHeader {
                signature: 0x4C494645,
                crc32: 0,
                client_id: 0,
                sequence_number: 0,
                ack_num: 0,
                ack_bits: 0,
            },
            data: UDPData { raw_data },
        }
    }

    pub fn set_signature(&mut self, signature: u32)
        ensures
            final(self).header == (UDPHeader { signature, ..old(self).header }),
            final(self).data.raw_data@ == old(self).data.raw_data@,
    {
        self.header.signature = signature;
    }

    pub fn get_signature(&self) -> (r: u32)
        ensures
            r == self.header.signature,
    {
        self.header.signature
    }

    pub fn set_data(&mut self, data: Vec<u8>)
        ensures
            final(self).header == old(self).header,
            final(self).data.raw_data@ == data@,
    {
        self.data.raw_data = data;
    }

    pub fn get_sequence_num(&self) -> (r: u32)
        ensures
            r == self.header.sequence_number,
    {
        self.header.sequence_number
    }

    /// Advance the header's sequence number through the 32-slot window,
    /// wrapping back to 0 after slot 31.
    pub fn inc_sequence_num(&mut self)
        requires
            old(self).header.sequence_number < u32::MAX,
        ensures
            final(self).header == (UDPHeader {
                sequence_number: ((old(self).header.sequence_number + 1) % 32) as u32,
                ..old(self).header
            }),
            final(self).data.raw_data@ == old(self).data.raw_data@,
    {
        let mut next_seq_num = self.get_sequence_num();
        next_seq_num = next_seq_num + 1;
        next_seq_num = next_seq_num % 32;
        self.header.sequence_number = next_seq_num;
    }

    pub fn set_ack(&mut self, ack: u32)
        ensures
            final(self).header == (UDPHeader { ack_num: ack, ..old(self).header }),
            final(self).data.raw_data@ == old(self).data.raw_data@,
    {
        self.header.ack_num = ack;
    }

    pub fn get_ack(&self) -> (r: u32)
        ensures
            r == self.header.ack_num,
    {
        self.header.ack_num
    }

    /// Set one bit of the ack bitmask.
    pub fn set_ackbit(&mut self, bit: u32)
        requires
            bit < 32,
        ensures
            final(self).header == (UDPHeader {
                ack_bits: old(self).header.ack_bits | (1u32 << bit),
                ..old(self).header
            }),
            final(self).data.raw_data@ == old(self).data.raw_data@,
    {
        self.header.ack_bits = self.header.ack_bits | (1u32 << bit);
    }

    pub fn get_ackbits(&self) -> (r: u32)
        ensures
            r == self.header.ack_bits,
    {
        self.header.ack_bits
    }

    /// 1 when the given bit of the ack bitmask is set, 0 otherwise.
    pub fn is_ackbit_set(&self, bit: u32) -> (r: u32)
        requires
            bit < 32,
        ensures
            r == (self.header.ack_bits >> bit) & 1,
    {
        (self.header.ack_bits >> bit) & 1
    }

    /// Stamp the client id with the digest of a human-readable identifier.
    pub fn set_client_id(&mut self, client_name: String)
        ensures
            final(self).header == (UDPHeader {
                client_id: spec_client_digest(encode_utf8(client_name@)),
                ..old(self).header
            }),
            final(self).data.raw_data@ == old(self).data.raw_data@,
    {
        self.header.client_id = hash(client_name.as_str());
    }

    pub fn get_client_id(&self) -> (r: u64)
        ensures
            r == self.header.client_id,
    {
        self.header.client_id
    }

    pub fn set_sequence_number(&mut self, seq_num: u32)
        ensures
            final(self).header == (UDPHeader {
                sequence_number: seq_num,
                ..old(self).header
            }),
            final(self).data.raw_data@ == old(self).data.raw_data@,
    {
        self.header.sequence_number = seq_num
    }

    pub fn get_data(&self) -> (r: &UDPData)
        ensures
            r.raw_data@ == self.data.raw_data@,
    {
        &self.data
    }

    /// Stamp the header checksum with the CRC-32 of the payload.
    pub fn calculate_checksum(&mut self)
        ensures
            final(self).header == (UDPHeader {
                crc32: crc32_ieee_of(old(self).data.raw_data@),
                ..old(self).header
            }),
            final(self).data.raw_data@ == old(self).data.raw_data@,
    {
        let checksum = crc32_checksum(&self.data.raw_data);
        self.header.crc32 = checksum;
    }

    pub fn get_checksum(&self) -> (r: u32)
        ensures
            r == self.header.crc32,
    {
        self.header.crc32
    }
}

} // verus!
