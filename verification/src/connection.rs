//! The session state machine and the reliable-connection facade.
//!
//! A connection validates inbound traffic (protocol signature, peer
//! address), latches the peer on a server's first valid packet, and turns
//! silence into `ConnectFail` or a disconnect. The socket itself lives in
//! the host layer: the library decides, the host sends and receives.

use crate::packet::Packet;
use crate::queue::{has_sequence, spec_insert_sorted, PacketData};
use crate::reliability::{
    acked_records, fresh_index, insert_all, recent_index, sequences_of, spec_aged,
    spec_generate_ack_bits, spec_next_sequence, spec_received_min, spec_rtt_after, spec_sat_add,
    sum_sizes, sum_sizes_at_least, unacked_records, ReliableSystem,
};
use vstd::prelude::*;

verus! {

/// Where the session stands.
#[derive(Clone, Copy, Debug, PartialEq, Eq, Structural)]
pub enum State {
    Disconnected,
    Listening,
    Connecting,
    ConnectFail,
    Connected,
}

/// Which side of the session this endpoint plays.
#[derive(Clone, Copy, Debug, PartialEq, Eq, Structural)]
pub enum Mode {
    Unset,
    Client,
    Server,
}

/// An IPv4 peer address: the four octets packed into one word, plus the
/// port. The all-zero address is the "no peer" sentinel.
#[derive(Clone, Copy, Debug, PartialEq, Eq, Structural)]
pub struct Address {
    pub address: u32,
    pub port: u16,
}

impl Address {
    pub fn new(address: u32, port: u16) -> (r: Address)
        ensures
            r.address == address,
            r.port == port,
    {
        Address { address, port }
    }

    pub fn getAddress(&self) -> (r: u32)
        ensures
            r == self.address,
    {
        self.address
    }

    pub fn getPort(&self) -> (r: u16)
        ensures
            r == self.port,
    {
        self.port
    }

    /// The sentinel address a cleared connection points at.
    pub fn empty_address() -> (r: u32)
        ensures
            r == 0,
    {
        0
    }
}

/// The session state machine: protocol id, timeout budget (milliseconds),
/// run flag, mode, state, destination address and the silence accumulator.
pub struct Connection {
    pub protocol_id: u32,
    pub timeout: u32,
    pub running: bool,
    pub mode: Mode,
    pub state: State,
    pub timeout_accumulator: u32,
    pub address: Address,
}

/// What one `update` tick does to a connection: accumulate silence; past
/// the timeout budget a connecting session fails and a connected one is
/// cleared to `Disconnected`.
pub open spec fn spec_connection_after_update(c: Connection, delta_time: u32) -> Connection {
    let acc = spec_sat_add(c.timeout_accumulator, delta_time);
    if acc > c.timeout && c.state == State::Connecting {
        Connection {
            state: State::ConnectFail,
            timeout_accumulator: 0,
            address: Address { address: 0, port: 0 },
            ..c
        }
    } else if acc > c.timeout && c.state == State::Connected {
        Connection {
            state: State::Disconnected,
            timeout_accumulator: 0,
            address: Address { address: 0, port: 0 },
            ..c
        }
    } else {
        Connection { timeout_accumulator: acc, ..c }
    }
}

/// What validating one inbound packet does to a connection, and how many
/// bytes it accepts: short datagrams, wrong signatures, and zero source
/// ports are dropped silently; a listening server latches the first valid
/// peer and connects; a client mid-handshake that hears from its server
/// completes the connection; traffic from any other address than the
/// latched peer is ignored as noise.
pub open spec fn spec_connection_after_receive(
    c: Connection,
    signature: u32,
    source_address: u32,
    source_port: u16,
    bytes_received: usize,
) -> (Connection, usize) {
    if bytes_received <= 4 {
        (c, 0)
    } else if signature != c.protocol_id || source_port == 0 {
        (c, 0)
    } else {
        let latched = if c.mode == Mode::Server && c.state != State::Connected {
            Connection {
                state: State::Connected,
                address: Address { address: source_address, port: source_port },
                ..c
            }
        } else {
            c
        };
        if latched.address.address == source_address {
            let completed = if latched.mode == Mode::Client && latched.state
                == State::Connecting {
                Connection { state: State::Connected, ..latched }
            } else {
                latched
            };
            (Connection { timeout_accumulator: 0, ..completed }, bytes_received)
        } else {
            (latched, 0)
        }
    }
}

impl Connection {
    /// A stopped, cleared connection for the given protocol id and timeout
    /// budget (milliseconds).
    pub fn new(protocol_id: u32, timeout: u32) -> (r: Connection)
        ensures
            r.protocol_id == protocol_id,
            r.timeout == timeout,
            !r.running,
            r.mode == Mode::Unset,
            r.state == State::Disconnected,
            r.timeout_accumulator == 0,
            r.address == (Address { address: 0, port: 0 }),
    {
        let mut new_connection = Connection {
            protocol_id,
            timeout,
            mode: Mode::Unset,
            running: false,
            state: State::Disconnected,
            timeout_accumulator: 0,
            address: Address { address: 0, port: 0 },
        };
        new_connection.ClearData();
        new_connection
    }

    /// Start the connection; starting twice is a programming error.
    pub fn Start(&mut self) -> (r: bool)
        requires
            !old(self).running,
        ensures
            *final(self) == (Connection { running: true, ..*old(self) }),
            r,
    {
        self.running = true;
        true
    }

    /// Stop a running connection and clear the session.
    pub fn Stop(&mut self)
        requires
            old(self).running,
        ensures
            *final(self) == (Connection {
                running: false,
                state: State::Disconnected,
                timeout_accumulator: 0,
                address: Address { address: 0, port: 0 },
                ..*old(self)
            }),
    {
        self.ClearData();
        self.running = false;
    }

    pub fn IsRunning(&self) -> (r: bool)
        ensures
            r == self.running,
    {
        self.running
    }

    /// Become a server: clear the session and wait for a client.
    pub fn Listen(&mut self)
        ensures
            *final(self) == (Connection {
                mode: Mode::Server,
                state: State::Listening,
                timeout_accumulator: 0,
                address: Address { address: 0, port: 0 },
                ..*old(self)
            }),
    {
        self.ClearData();
        self.mode = Mode::Server;
        self.state = State::Listening;
    }

    /// Become a client: clear the session and head for the destination.
    pub fn Connect(&mut self, dest_addr: &Address)
        ensures
            *final(self) == (Connection {
                mode: Mode::Client,
                state: State::Connecting,
                timeout_accumulator: 0,
                address: *dest_addr,
                ..*old(self)
            }),
    {
        self.ClearData();
        self.mode = Mode::Client;
        self.state = State::Connecting;
        self.address = Address { address: dest_addr.address, port: dest_addr.port };
    }

    pub fn IsConnecting(&self) -> (r: bool)
        ensures
            r == (self.state == State::Connecting),
    {
        self.state == State::Connecting
    }

    pub fn ConnectFailed(&self) -> (r: bool)
        ensures
            r == (self.state == State::ConnectFail),
    {
        self.state == State::ConnectFail
    }

    pub fn IsConnected(&self) -> (r: bool)
        ensures
            r == (self.state == State::Connected),
    {
        self.state == State::Connected
    }

    pub fn IsListening(&self) -> (r: bool)
        ensures
            r == (self.state == State::Listening),
    {
        self.state == State::Listening
    }

    pub fn GetMode(&self) -> (r: Mode)
        ensures
            r == self.mode,
    {
        self.mode
    }

    pub fn Get_Protocol_Id(&self) -> (r: u32)
        ensures
            r == self.protocol_id,
    {
        self.protocol_id
    }

    /// Accumulate elapsed time; past the timeout budget a connecting
    /// session fails and a connected one is dropped.
    pub fn Update(&mut self, delta_time: u32)
        requires
            old(self).running,
        ensures
            *final(self) == spec_connection_after_update(*old(self), delta_time),
    {
        let acc = if self.timeout_accumulator > u32::MAX - delta_time {
            u32::MAX
        } else {
            self.timeout_accumulator + delta_time
        };
        self.timeout_accumulator = acc;
        if self.timeout_accumulator > self.timeout {
            if self.IsConnecting() {
                self.ClearData();
                self.state = State::ConnectFail;
            } else if self.IsConnected() {
                self.ClearData();
            }
        }
    }

    /// Whether an outgoing datagram would actually be sent: a cleared
    /// destination (the sentinel address) swallows sends.
    pub fn SendAllowed(&self) -> (r: bool)
        requires
            self.running,
        ensures
            r == (self.address.address != 0),
    {
        self.address.getAddress() != Address::empty_address()
    }

    /// Validate one inbound datagram that the host layer read and decoded:
    /// returns how many of its bytes the session accepts (0 for rejected
    /// or foreign traffic) and updates the session accordingly. A connecting
    /// client that hears from its server becomes connected.
    pub fn ReceivePacket(
        &mut self,
        signature: u32,
        source_address: u32,
        source_port: u16,
        bytes_received: usize,
    ) -> (r: usize)
        requires
            old(self).running,
        ensures
            ({
                let (c, accepted) = spec_connection_after_receive(
                    *old(self),
                    signature,
                    source_address,
                    source_port,
                    bytes_received,
                );
                *final(self) == c && r == accepted
            }),
    {
        if bytes_received <= 4 {
            return 0;
        }
        if signature != self.Get_Protocol_Id() || source_port == 0 {
            return 0;
        }
        if (self.GetMode() == Mode::Server) && !self.IsConnected() {
            self.state = State::Connected;
            self.address = Address::new(source_address, source_port);
        }
        if self.address.getAddress() == source_address {
            if (self.GetMode() == Mode::Client) && self.IsConnecting() {
                self.state = State::Connected;
            }
            self.timeout_accumulator = 0;
            return bytes_received;
        }
        0
    }

    fn ClearData(&mut self)
        ensures
            *final(self) == (Connection {
                state: State::Disconnected,
                timeout_accumulator: 0,
                address: Address { address: 0, port: 0 },
                ..*old(self)
            }),
    {
        self.state = State::Disconnected;
        self.timeout_accumulator = 0;
        self.address = Address::new(Address::empty_address(), 0);
    }

    /// Bytes the connection layer's signature occupies in the wire header.
    pub fn GetHeaderSize() -> (r: usize)
        ensures
            r == 4,
    {
        4
    }
}

/// A connection composed with its reliability system: the public
/// send/receive/update surface of the layer.
pub struct ReliableConnection {
    pub connection: Connection,
    pub reliability_system: ReliableSystem,
    pub packet_loss_mask: u32,
}

impl ReliableConnection {
    /// A fresh endpoint for the given protocol id, timeout budget
    /// (milliseconds) and sequence space.
    pub fn new(protocol_id: u32, timeout: u32, max_sequence: u32) -> (r: ReliableConnection)
        requires
            max_sequence >= 34,
        ensures
            r.reliability_system.wf(),
            r.connection.protocol_id == protocol_id,
            r.connection.timeout == timeout,
            !r.connection.running,
            r.connection.state == State::Disconnected,
            r.connection.mode == Mode::Unset,
            r.connection.timeout_accumulator == 0,
            r.connection.address == (Address { address: 0, port: 0 }),
            r.reliability_system.max_sequence == max_sequence,
            r.reliability_system.local_sequence == 0,
            r.reliability_system.remote_sequence == 0,
            r.reliability_system.sent_queue@ == Seq::<PacketData>::empty(),
            r.reliability_system.pending_ack_queue@ == Seq::<PacketData>::empty(),
            r.reliability_system.received_queue@ == Seq::<PacketData>::empty(),
            r.reliability_system.acked_queue@ == Seq::<PacketData>::empty(),
            r.packet_loss_mask == 0,
    {
        ReliableConnection {
            connection: Connection::new(protocol_id, timeout),
            reliability_system: ReliableSystem::new(max_sequence),
            packet_loss_mask: 0,
        }
    }

    /// Build the next outgoing packet's header from the session state: the
    /// protocol signature, the next local sequence number, and the ack
    /// number and bitmask for the peer.
    pub fn BuildOutgoingPacket(&mut self) -> (r: Packet)
        requires
            old(self).reliability_system.wf(),
        ensures
            *final(self) == *old(self),
            r.header.signature == old(self).connection.protocol_id,
            r.header.sequence_number == old(self).reliability_system.local_sequence,
            r.header.ack_num == old(self).reliability_system.remote_sequence,
            r.header.ack_bits == spec_generate_ack_bits(
                old(self).reliability_system.received_queue@,
                old(self).reliability_system.remote_sequence,
                old(self).reliability_system.max_sequence,
            ),
    {
        let mut packet_to_send = Packet::new();
        packet_to_send.set_signature(self.connection.Get_Protocol_Id());
        packet_to_send.set_sequence_number(self.reliability_system.get_local_sequence());
        packet_to_send.set_ack(self.reliability_system.get_remote_sequence());
        let bits = self.reliability_system.GenerateAckBits();
        packet_to_send.header.ack_bits = bits;
        packet_to_send
    }

    /// Record that the host layer put an outgoing packet of `size` payload
    /// bytes on the wire.
    pub fn PacketSent(&mut self, size: usize)
        requires
            old(self).reliability_system.wf(),
            old(self).reliability_system.ready_to_send(),
            old(self).reliability_system.sent_packets < u32::MAX,
            size <= u32::MAX,
        ensures
            final(self).reliability_system.wf(),
            final(self).connection == old(self).connection,
            final(self).packet_loss_mask == old(self).packet_loss_mask,
            final(self).reliability_system.sent_queue@ == old(self).reliability_system.sent_queue@.push(
                PacketData {
                    sequence: old(self).reliability_system.local_sequence,
                    size: size as u32,
                    time: 0,
                },
            ),
            final(self).reliability_system.pending_ack_queue@ == old(self).reliability_system.pending_ack_queue@.push(
                PacketData {
                    sequence: old(self).reliability_system.local_sequence,
                    size: size as u32,
                    time: 0,
                },
            ),
            final(self).reliability_system.sent_packets == old(self).reliability_system.sent_packets + 1,
            final(self).reliability_system.local_sequence == spec_next_sequence(
                old(self).reliability_system.local_sequence,
                old(self).reliability_system.max_sequence,
            ),
    {
        self.reliability_system.PacketSent(size);
    }

    /// Feed one accepted inbound packet's header fields back into the
    /// bookkeeping: too-short datagrams are dropped; otherwise the payload
    /// is counted as received and the piggybacked ack processed. Returns
    /// the payload byte count.
    pub fn ReceivePacket(
        &mut self,
        sequence: u32,
        ack: u32,
        ack_bits: u32,
        received_bytes: usize,
    ) -> (r: usize)
        requires
            old(self).reliability_system.wf(),
            sequence <= old(self).reliability_system.max_sequence,
            ack <= old(self).reliability_system.max_sequence,
            old(self).reliability_system.recv_packets < u32::MAX,
            old(self).reliability_system.acked_packets + old(self).reliability_system.pending_ack_queue@.len() <= u32::MAX,
            received_bytes <= 12 || received_bytes >= 28,
            received_bytes <= u32::MAX,
        ensures
            final(self).reliability_system.wf(),
            final(self).connection == old(self).connection,
            final(self).packet_loss_mask == old(self).packet_loss_mask,
            received_bytes <= 12 ==> r == 0 && *final(self) == *old(self),
            received_bytes > 12 ==> {
                &&& r == received_bytes - 28
                &&& final(self).reliability_system.recv_packets == old(self).reliability_system.recv_packets + 1
                &&& final(self).reliability_system.pending_ack_queue@ == unacked_records(
                    old(self).reliability_system.pending_ack_queue@,
                    ack,
                    ack_bits,
                    old(self).reliability_system.max_sequence,
                )
                &&& final(self).reliability_system.acks@ == old(self).reliability_system.acks@ + sequences_of(
                    acked_records(
                        old(self).reliability_system.pending_ack_queue@,
                        ack,
                        ack_bits,
                        old(self).reliability_system.max_sequence,
                    ),
                )
                &&& (!has_sequence(old(self).reliability_system.received_queue@, sequence)
                    ==> final(self).reliability_system.received_queue@ == spec_insert_sorted(
                    old(self).reliability_system.received_queue@,
                    PacketData { sequence, size: (received_bytes - 28) as u32, time: 0 },
                    old(self).reliability_system.max_sequence,
                ))
                &&& (has_sequence(old(self).reliability_system.received_queue@, sequence)
                    ==> final(self).reliability_system.received_queue@ == old(self).reliability_system.received_queue@
                    && final(self).reliability_system.remote_sequence == old(self).reliability_system.remote_sequence)
                &&& final(self).reliability_system.acked_queue@ == insert_all(
                    old(self).reliability_system.acked_queue@,
                    acked_records(
                        old(self).reliability_system.pending_ack_queue@,
                        ack,
                        ack_bits,
                        old(self).reliability_system.max_sequence,
                    ),
                    old(self).reliability_system.max_sequence,
                )
                &&& final(self).reliability_system.acked_packets == old(self).reliability_system.acked_packets + acked_records(
                    old(self).reliability_system.pending_ack_queue@,
                    ack,
                    ack_bits,
                    old(self).reliability_system.max_sequence,
                ).len()
                &&& final(self).reliability_system.rtt == spec_rtt_after(
                    old(self).reliability_system.rtt,
                    acked_records(
                        old(self).reliability_system.pending_ack_queue@,
                        ack,
                        ack_bits,
                        old(self).reliability_system.max_sequence,
                    ),
                )
                &&& final(self).reliability_system.sent_queue@ == old(self).reliability_system.sent_queue@
                &&& final(self).reliability_system.local_sequence == old(self).reliability_system.local_sequence
            },
    {
        if received_bytes <= 12 {
            return 0;
        }
        let data_bytes = received_bytes - 28;
        self.reliability_system.PacketReceived(sequence, data_bytes);
        self.reliability_system.ProcessAck(ack, ack_bits);
        data_bytes
    }

    /// One tick for both halves: the session state machine and the
    /// reliability bookkeeping.
    pub fn Update(&mut self, delta_time: u32)
        requires
            old(self).connection.running,
            old(self).reliability_system.wf(),
            old(self).reliability_system.lost_packets + old(self).reliability_system.pending_ack_queue@.len() <= u32::MAX,
            sum_sizes(old(self).reliability_system.sent_queue@) * 8 <= u64::MAX,
            sum_sizes(old(self).reliability_system.acked_queue@) * 8 <= u64::MAX,
        ensures
            final(self).reliability_system.wf(),
            final(self).connection == spec_connection_after_update(
                old(self).connection,
                delta_time,
            ),
            final(self).packet_loss_mask == old(self).packet_loss_mask,
            final(self).reliability_system.acks@ == Seq::<u32>::empty(),
            final(self).reliability_system.pending_ack_queue@ == ({
                let a = spec_aged(old(self).reliability_system.pending_ack_queue@, delta_time);
                a.skip(fresh_index(a, old(self).reliability_system.rtt_maximum))
            }),
            final(self).reliability_system.lost_packets == old(self).reliability_system.lost_packets + fresh_index(
                spec_aged(old(self).reliability_system.pending_ack_queue@, delta_time),
                old(self).reliability_system.rtt_maximum,
            ),
            final(self).reliability_system.sent_queue@ == ({
                let a = spec_aged(old(self).reliability_system.sent_queue@, delta_time);
                a.skip(fresh_index(a, old(self).reliability_system.rtt_maximum))
            }),
            final(self).reliability_system.acked_queue@ == ({
                let a = spec_aged(old(self).reliability_system.acked_queue@, delta_time);
                a.skip(
                    fresh_index(a, (2 * old(self).reliability_system.rtt_maximum) as u32),
                )
            }),
            final(self).reliability_system.sent_bandwidth == sum_sizes(
                final(self).reliability_system.sent_queue@,
            ) * 8 / (old(self).reliability_system.rtt_maximum as int),
            final(self).reliability_system.acked_bandwidth == sum_sizes_at_least(
                final(self).reliability_system.acked_queue@,
                old(self).reliability_system.rtt_maximum,
            ) * 8 / (old(self).reliability_system.rtt_maximum as int),
            old(self).reliability_system.received_queue@.len() == 0 ==> final(self).reliability_system.received_queue@ == Seq::<PacketData>::empty(),
            old(self).reliability_system.received_queue@.len() > 0 ==> final(self).reliability_system.received_queue@ == ({
                let a = spec_aged(old(self).reliability_system.received_queue@, delta_time);
                a.skip(
                    recent_index(
                        a,
                        spec_received_min(
                            old(self).reliability_system.received_queue@.last().sequence,
                            old(self).reliability_system.max_sequence,
                        ),
                        old(self).reliability_system.max_sequence,
                    ),
                )
            }),
            final(self).reliability_system.local_sequence == old(self).reliability_system.local_sequence,
            final(self).reliability_system.remote_sequence == old(self).reliability_system.remote_sequence,
            final(self).reliability_system.sent_packets == old(self).reliability_system.sent_packets,
            final(self).reliability_system.recv_packets == old(self).reliability_system.recv_packets,
            final(self).reliability_system.acked_packets == old(self).reliability_system.acked_packets,
            final(self).reliability_system.rtt == old(self).reliability_system.rtt,
            final(self).reliability_system.rtt_maximum == old(self).reliability_system.rtt_maximum,
    {
        self.connection.Update(delta_time);
        self.reliability_system.Update(delta_time);
    }

    /// Total bytes of reliability and connection header fields.
    pub fn GetHeaderSize(&self) -> (r: u32)
        ensures
            r == 16,
    {
        (ReliableSystem::GetHeaderSize() as u32) + (Connection::GetHeaderSize() as u32)
    }

    pub fn GetReliabilitySystem(&self) -> (r: &ReliableSystem)
        ensures
            r == &self.reliability_system,
    {
        &self.reliability_system
    }

    /// Remember which outgoing packets the host layer wants to drop for
    /// loss simulation; the mask itself is the host layer's business.
    pub fn SetPacketLossMask(&mut self, mask: u32)
        ensures
            *final(self) == (ReliableConnection { packet_loss_mask: mask, ..*old(self) }),
    {
        self.packet_loss_mask = mask;
    }

    fn ClearData(&mut self)
        requires
            old(self).reliability_system.max_sequence >= 34,
        ensures
            final(self).reliability_system.wf(),
            final(self).connection == old(self).connection,
            final(self).packet_loss_mask == old(self).packet_loss_mask,
            final(self).reliability_system.local_sequence == 0,
            final(self).reliability_system.remote_sequence == 0,
            final(self).reliability_system.sent_queue@ == Seq::<PacketData>::empty(),
            final(self).reliability_system.pending_ack_queue@ == Seq::<PacketData>::empty(),
            final(self).reliability_system.received_queue@ == Seq::<PacketData>::empty(),
            final(self).reliability_system.acked_queue@ == Seq::<PacketData>::empty(),
    {
        self.reliability_system.reset();
    }
}

} // verus!
