//! A fixed-capacity in-flight packet buffer keyed by `sequence mod 32`, with
//! per-slot sent/acked flags and high-priority promotion. The application
//! layer reads the high-priority flags to pick retransmission candidates;
//! the buffer itself never retransmits.

use crate::packet::{Packet, UDPHeader, MAX_PACKET_SIZE};
use vstd::prelude::*;

verus! {

/// Number of slots: one in-flight packet per ack-window position.
pub const MAX_PACKET_BUFFER_SIZE: usize = 32;

/// Outcome of a buffer operation.
#[derive(Clone, Copy, Debug, PartialEq, Eq, Structural)]
pub enum NetworkBufferManagerProbe {
    Inserted,
    Removed,
    Exists,
    Full,
    Empty,
}

/// The in-flight buffer: the last packet stored per slot, the transmit and
/// receive flags per slot, the promotion flags, and a count of live entries.
pub struct NetworkBufferManager {
    pub sent_packet_buffer: Vec<Packet>,
    pub tx_packets: Vec<bool>,
    pub rx_acks: Vec<bool>,
    pub high_priority_acks: Vec<bool>,
    pub length: usize,
}

impl NetworkBufferManager {
    /// The buffer's structural invariant: all four slot arrays span exactly
    /// the 32 window positions and the live count never passes the capacity.
    pub open spec fn wf(&self) -> bool {
        &&& self.sent_packet_buffer@.len() == MAX_PACKET_BUFFER_SIZE
        &&& self.tx_packets@.len() == MAX_PACKET_BUFFER_SIZE
        &&& self.rx_acks@.len() == MAX_PACKET_BUFFER_SIZE
        &&& self.high_priority_acks@.len() == MAX_PACKET_BUFFER_SIZE
        &&& self.length <= MAX_PACKET_BUFFER_SIZE
    }

    /// An empty buffer: every slot holds a fresh packet and cleared flags.
    pub fn new() -> (r: NetworkBufferManager)
        ensures
            r.wf(),
            r.length == 0,
            forall|i: int| 0 <= i < MAX_PACKET_BUFFER_SIZE ==> !r.tx_packets@[i],
            forall|i: int| 0 <= i < MAX_PACKET_BUFFER_SIZE ==> !r.rx_acks@[i],
            forall|i: int| 0 <= i < MAX_PACKET_BUFFER_SIZE ==> !r.high_priority_acks@[i],
    {
        let mut sent_packet_buffer: Vec<Packet> = Vec::with_capacity(MAX_PACKET_BUFFER_SIZE);
        let mut i: usize = 0;
        while i < MAX_PACKET_BUFFER_SIZE
            invariant
                i <= MAX_PACKET_BUFFER_SIZE,
                sent_packet_buffer@.len() == i,
            decreases MAX_PACKET_BUFFER_SIZE - i,
        {
            sent_packet_buffer.push(Packet::new());
            i = i + 1;
        }
        let mut tx_packets: Vec<bool> = Vec::with_capacity(MAX_PACKET_BUFFER_SIZE);
        let mut rx_acks: Vec<bool> = Vec::with_capacity(MAX_PACKET_BUFFER_SIZE);
        let mut high_priority_acks: Vec<bool> = Vec::with_capacity(MAX_PACKET_BUFFER_SIZE);
        let mut j: usize = 0;
        while j < MAX_PACKET_BUFFER_SIZE
            invariant
                j <= MAX_PACKET_BUFFER_SIZE,
                tx_packets@.len() == j,
                rx_acks@.len() == j,
                high_priority_acks@.len() == j,
                forall|k: int| 0 <= k < j ==> !tx_packets@[k],
                forall|k: int| 0 <= k < j ==> !rx_acks@[k],
                forall|k: int| 0 <= k < j ==> !high_priority_acks@[k],
            decreases MAX_PACKET_BUFFER_SIZE - j,
        {
            tx_packets.push(false);
            rx_acks.push(false);
            high_priority_acks.push(false);
            j = j + 1;
        }
        NetworkBufferManager {
            sent_packet_buffer,
            tx_packets,
            rx_acks,
            high_priority_acks,
            length: 0,
        }
    }

    /// Number of live entries.
    pub fn len(&self) -> (r: usize)
        ensures
            r == self.length,
    {
        self.length
    }

    /// Number of window slots each array spans.
    pub fn slot_count(&self) -> (r: usize)
        requires
            self.wf(),
        ensures
            r == MAX_PACKET_BUFFER_SIZE,
    {
        self.sent_packet_buffer.len()
    }

    pub fn is_full(&self) -> (r: bool)
        ensures
            r == (self.length >= MAX_PACKET_BUFFER_SIZE),
    {
        self.len() >= MAX_PACKET_BUFFER_SIZE
    }

    pub fn is_empty(&self) -> (r: bool)
        ensures
            r == (self.length == 0),
    {
        self.len() == 0
    }

    /// Store a packet in the slot `sequence mod 32`. Fails with `Full` when
    /// the buffer already holds 32 entries; reports `Exists` without storing
    /// when that slot's ack has already come back; otherwise stores the
    /// packet (last write to a slot wins), marks the slot transmitted and
    /// counts it.
    pub fn insert(&mut self, packet: &Packet) -> (r: Result<
        NetworkBufferManagerProbe,
        NetworkBufferManagerProbe,
    >)
        requires
            old(self).wf(),
        ensures
            final(self).wf(),
            old(self).length >= MAX_PACKET_BUFFER_SIZE ==> r == Err::<
                NetworkBufferManagerProbe,
                NetworkBufferManagerProbe,
            >(NetworkBufferManagerProbe::Full) && *final(self) == *old(self),
            ({
                let slot = packet.header.sequence_number % 32;
                old(self).length < MAX_PACKET_BUFFER_SIZE && old(self).rx_acks@[slot as int]
                    ==> r == Ok::<NetworkBufferManagerProbe, NetworkBufferManagerProbe>(
                    NetworkBufferManagerProbe::Exists,
                ) && *final(self) == *old(self)
            }),
            ({
                let slot = packet.header.sequence_number % 32;
                old(self).length < MAX_PACKET_BUFFER_SIZE && !old(self).rx_acks@[slot as int]
                    ==> {
                    &&& r == Ok::<NetworkBufferManagerProbe, NetworkBufferManagerProbe>(
                        NetworkBufferManagerProbe::Inserted,
                    )
                    &&& final(self).length == old(self).length + 1
                    &&& final(self).tx_packets@ == old(self).tx_packets@.update(
                        slot as int,
                        true,
                    )
                    &&& final(self).sent_packet_buffer@[slot as int].header == packet.header
                    &&& final(self).sent_packet_buffer@[slot as int].data.raw_data@
                        == packet.data.raw_data@
                    &&& forall|i: int|
                        0 <= i < MAX_PACKET_BUFFER_SIZE && i != slot ==> final(self).sent_packet_buffer@[i] == old(self).sent_packet_buffer@[i]
                    &&& final(self).rx_acks@ == old(self).rx_acks@
                    &&& final(self).high_priority_acks@ == old(self).high_priority_acks@
                }
            }),
    {
        if self.is_full() {
            Result::Err(NetworkBufferManagerProbe::Full)
        } else {
            let ack_indx = packet.get_sequence_num() % 32;
            let ack_num = ack_indx as usize;
            if !self.rx_acks[ack_num] {
                self.sent_packet_buffer[ack_num] = packet.clone();
                self.tx_packets[ack_num] = true;
                self.length = self.length + 1;
                Result::Ok(NetworkBufferManagerProbe::Inserted)
            } else {
                Result::Ok(NetworkBufferManagerProbe::Exists)
            }
        }
    }

    /// Release a slot: clear its transmit flag, reset the stored packet and
    /// drop the live count. Fails with `Empty` when nothing is buffered.
    pub fn remove(&mut self, packet_index: usize) -> (r: Result<
        NetworkBufferManagerProbe,
        NetworkBufferManagerProbe,
    >)
        requires
            old(self).wf(),
            packet_index < MAX_PACKET_BUFFER_SIZE,
        ensures
            final(self).wf(),
            old(self).length == 0 ==> r == Err::<
                NetworkBufferManagerProbe,
                NetworkBufferManagerProbe,
            >(NetworkBufferManagerProbe::Empty) && *final(self) == *old(self),
            old(self).length > 0 ==> {
                &&& r == Ok::<NetworkBufferManagerProbe, NetworkBufferManagerProbe>(
                    NetworkBufferManagerProbe::Removed,
                )
                &&& final(self).length == old(self).length - 1
                &&& final(self).tx_packets@ == old(self).tx_packets@.update(
                    packet_index as int,
                    false,
                )
                &&& final(self).sent_packet_buffer@[packet_index as int].header == (UDPHeader {
                    signature: 0x4C494645u32,
                    crc32: 0u32,
                    client_id: 0u64,
                    sequence_number: 0u32,
                    ack_num: 0u32,
                    ack_bits: 0u32,
                })
                &&& final(self).sent_packet_buffer@[packet_index as int].data.raw_data@.len()
                    == MAX_PACKET_SIZE - 28
                &&& (forall|b: int|
                    0 <= b < final(self).sent_packet_buffer@[packet_index as int].data.raw_data@.len()
                        ==> final(self).sent_packet_buffer@[packet_index as int].data.raw_data@[b]
                        == 0u8)
                &&& forall|i: int|
                    0 <= i < MAX_PACKET_BUFFER_SIZE && i != packet_index ==> final(self).sent_packet_buffer@[i] == old(self).sent_packet_buffer@[i]
                &&& final(self).rx_acks@ == old(self).rx_acks@
                &&& final(self).high_priority_acks@ == old(self).high_priority_acks@
            },
    {
        if !self.is_empty() {
            self.tx_packets[packet_index] = false;
            self.length = self.length - 1;
            self.sent_packet_buffer[packet_index] = Packet::new();
            Result::Ok(NetworkBufferManagerProbe::Removed)
        } else {
            Result::Err(NetworkBufferManagerProbe::Empty)
        }
    }

    /// Flag every inconsistent slot as high priority: a slot whose transmit
    /// and receive flags disagree was sent but never confirmed (or
    /// confirmed without a matching send) and becomes a retransmission
    /// candidate. Slots whose flags agree are left alone.
    pub fn promote_packets(&mut self)
        requires
            old(self).wf(),
        ensures
            final(self).wf(),
            final(self).high_priority_acks@.len() == MAX_PACKET_BUFFER_SIZE,
            forall|i: int|
                0 <= i < MAX_PACKET_BUFFER_SIZE ==> final(self).high_priority_acks@[i] == (old(self).high_priority_acks@[i] || (old(self).rx_acks@[i] != old(self).tx_packets@[i])),
            final(self).sent_packet_buffer@ == old(self).sent_packet_buffer@,
            final(self).tx_packets@ == old(self).tx_packets@,
            final(self).rx_acks@ == old(self).rx_acks@,
            final(self).length == old(self).length,
    {
        let mut i: usize = 0;
        while i < MAX_PACKET_BUFFER_SIZE
            invariant
                self.wf(),
                i <= MAX_PACKET_BUFFER_SIZE,
                forall|k: int|
                    0 <= k < i ==> self.high_priority_acks@[k] == (old(self).high_priority_acks@[k] || (old(self).rx_acks@[k] != old(self).tx_packets@[k])),
                forall|k: int|
                    i <= k < MAX_PACKET_BUFFER_SIZE ==> self.high_priority_acks@[k] == old(self).high_priority_acks@[k],
                self.sent_packet_buffer@ == old(self).sent_packet_buffer@,
                self.tx_packets@ == old(self).tx_packets@,
                self.rx_acks@ == old(self).rx_acks@,
                self.length == old(self).length,
            decreases MAX_PACKET_BUFFER_SIZE - i,
        {
            if self.rx_acks[i] ^ self.tx_packets[i] {
                self.high_priority_acks[i] = true;
            }
            i = i + 1;
        }
    }
}

} // verus!
