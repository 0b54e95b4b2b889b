use reliable_net::connection::{Address, Connection, Mode, ReliableConnection, State};

#[test]
fn connect_times_out_into_connect_fail() {
    // a client configured with a 1000 ms timeout that hears nothing for a
    // cumulative 1100 ms ends in ConnectFail
    let mut connection = Connection::new(0x4C494645, 1000);
    assert!(connection.Start());
    assert!(connection.IsRunning());

    let dest = Address::new(0x7F000001, 8890);
    connection.Connect(&dest);
    assert!(connection.IsConnecting());
    assert!(!connection.ConnectFailed());

    connection.Update(600);
    assert!(connection.IsConnecting());

    connection.Update(500);
    assert!(connection.ConnectFailed());
    assert!(!connection.IsConnecting());
    assert!(!connection.IsConnected());
}

#[test]
fn connect_survives_within_the_timeout_budget() {
    let mut connection = Connection::new(0x4C494645, 1000);
    assert!(connection.Start());

    let dest = Address::new(0x7F000001, 8890);
    connection.Connect(&dest);

    connection.Update(400);
    connection.Update(400);
    assert!(connection.IsConnecting());
}

#[test]
fn server_latches_first_valid_peer() {
    let mut server = Connection::new(0x4C494645, 1000);
    assert!(server.Start());
    server.Listen();
    assert!(server.IsListening());
    assert_eq!(server.GetMode(), Mode::Server);

    // wrong signature: silently rejected
    let accepted = server.ReceivePacket(0xDEADBEEF, 0x7F000001, 9000, 64);
    assert_eq!(accepted, 0);
    assert!(!server.IsConnected());

    // valid packet: peer latched, connection established
    let accepted = server.ReceivePacket(0x4C494645, 0x7F000001, 9000, 64);
    assert_eq!(accepted, 64);
    assert!(server.IsConnected());
    assert_eq!(server.address.getAddress(), 0x7F000001);
    assert_eq!(server.address.getPort(), 9000);

    // a different peer probing the socket is ignored, not an error
    let accepted = server.ReceivePacket(0x4C494645, 0x0A000001, 9001, 64);
    assert_eq!(accepted, 0);
    assert!(server.IsConnected());
    assert_eq!(server.address.getAddress(), 0x7F000001);
}

#[test]
fn short_datagrams_and_zero_ports_are_dropped() {
    let mut server = Connection::new(0x4C494645, 1000);
    assert!(server.Start());
    server.Listen();

    assert_eq!(server.ReceivePacket(0x4C494645, 0x7F000001, 9000, 4), 0);
    assert_eq!(server.ReceivePacket(0x4C494645, 0x7F000001, 0, 64), 0);
    assert!(!server.IsConnected());
}

#[test]
fn send_is_swallowed_without_a_destination() {
    let mut connection = Connection::new(0x4C494645, 1000);
    assert!(connection.Start());
    assert!(!connection.SendAllowed());

    let dest = Address::new(0x7F000001, 8890);
    connection.Connect(&dest);
    assert!(connection.SendAllowed());
}

#[test]
fn stop_clears_the_session() {
    let mut connection = Connection::new(0x4C494645, 1000);
    assert!(connection.Start());
    let dest = Address::new(0x7F000001, 8890);
    connection.Connect(&dest);

    connection.Stop();
    assert!(!connection.IsRunning());
    assert_eq!(connection.state, State::Disconnected);
    assert_eq!(connection.address.getAddress(), 0);
}

#[test]
fn reliable_connection_stamps_outgoing_headers() {
    let mut endpoint = ReliableConnection::new(0x4C494645, 1000, 0xFFFFFFFF);

    let first = endpoint.BuildOutgoingPacket();
    assert_eq!(first.get_signature(), 0x4C494645);
    assert_eq!(first.get_sequence_num(), 0);
    assert_eq!(first.get_ack(), 0);
    assert_eq!(first.get_ackbits(), 0);

    endpoint.PacketSent(100);

    // an inbound packet: sequence 0, acking our sequence 0, 128 wire bytes
    let payload = endpoint.ReceivePacket(0, 0, 0, 128);
    assert_eq!(payload, 100);

    let next = endpoint.BuildOutgoingPacket();
    assert_eq!(next.get_sequence_num(), 1);
    assert_eq!(next.get_ack(), 0);

    let system = endpoint.GetReliabilitySystem();
    assert_eq!(system.get_acked_packets(), 1);
    assert_eq!(system.get_received_packets(), 1);
}

#[test]
fn reliable_connection_drops_short_datagrams() {
    let mut endpoint = ReliableConnection::new(0x4C494645, 1000, 0xFFFFFFFF);

    let payload = endpoint.ReceivePacket(0, 0, 0, 12);
    assert_eq!(payload, 0);
    assert_eq!(endpoint.GetReliabilitySystem().get_received_packets(), 0);
}

#[test]
fn reliable_connection_update_drives_both_halves() {
    let mut endpoint = ReliableConnection::new(0x4C494645, 1000, 0xFFFFFFFF);
    assert!(endpoint.connection.Start());
    let dest = Address::new(0x7F000001, 8890);
    endpoint.connection.Connect(&dest);

    endpoint.PacketSent(10);
    endpoint.Update(1100);

    // the silent connection failed, and the unacked packet timed out as lost
    assert!(endpoint.connection.ConnectFailed());
    assert_eq!(endpoint.GetReliabilitySystem().get_lost_packets(), 1);
}

#[test]
fn header_sizes_compose() {
    let endpoint = ReliableConnection::new(0x4C494645, 1000, 0xFFFFFFFF);
    assert_eq!(endpoint.GetHeaderSize(), 16);
    assert_eq!(Connection::GetHeaderSize(), 4);
}

#[test]
fn packet_loss_mask_is_remembered() {
    let mut endpoint = ReliableConnection::new(0x4C494645, 1000, 0xFFFFFFFF);
    endpoint.SetPacketLossMask(0xF0F0F0F0);
    assert_eq!(endpoint.packet_loss_mask, 0xF0F0F0F0);
}

#[test]
fn client_completes_connection_on_server_reply() {
    let mut client = Connection::new(0x4C494645, 1000);
    assert!(client.Start());
    let server = Address::new(0x7F000001, 8890);
    client.Connect(&server);
    assert!(client.IsConnecting());

    // a reply from some other host is ignored and changes nothing
    let accepted = client.ReceivePacket(0x4C494645, 0x0A000001, 8890, 64);
    assert_eq!(accepted, 0);
    assert!(client.IsConnecting());

    // the server's valid reply completes the handshake
    let accepted = client.ReceivePacket(0x4C494645, 0x7F000001, 8890, 64);
    assert_eq!(accepted, 64);
    assert!(client.IsConnected());
    assert!(!client.IsConnecting());
    assert_eq!(client.timeout_accumulator, 0);

    // and the connection then stays up across in-budget ticks
    client.Update(400);
    assert!(client.IsConnected());
}
