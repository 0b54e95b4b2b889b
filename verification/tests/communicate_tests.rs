use reliable_net::communicate::{get_port_client, get_port_server};
use reliable_net::debug::DebugPrint;
use reliable_net::packet::{get_packet_header_size, MyLen, Packet, MAX_PACKET_SIZE};
use reliable_net::utils::{bit_clr, bit_set, is_bit_set};

#[test]
fn well_known_ports() {
    assert_eq!(get_port_client(), 8888);
    assert_eq!(get_port_server(), 8890);
}

#[test]
fn header_and_packet_sizes() {
    assert_eq!(get_packet_header_size(), 28);
    assert_eq!(MAX_PACKET_SIZE, 1472);

    let packet = Packet::new();
    assert_eq!(packet.get_data().raw_data.len(), MAX_PACKET_SIZE - 28);
    assert_eq!(packet.len(), MAX_PACKET_SIZE);
}

#[test]
fn debug_print_codes() {
    assert_eq!(DebugPrint::COMMON.code(), 0x1000);
    assert_eq!(DebugPrint::NETWORK.code(), 0x1001);
    assert_eq!(DebugPrint::PACKET.code(), 0x1002);
    assert_eq!(DebugPrint::GRAPHICS.code(), 0x2000);
    assert_eq!(DebugPrint::LIBCONWAY.code(), 0x3000);
    assert_eq!(DebugPrint::AUDIO.code(), 0x4000);
    assert_eq!(DebugPrint::MAXDEBUGPRINTTYPES.code(), 0xFFFF);
}

#[test]
fn fresh_packets_carry_the_protocol_signature() {
    let packet = Packet::new();
    assert_eq!(packet.get_signature(), 0x4C494645);
    assert_eq!(packet.get_checksum(), 0);
    assert_eq!(packet.get_client_id(), 0);
    assert_eq!(packet.get_ackbits(), 0);
}

#[test]
fn bit_helpers_set_test_and_clear() {
    let mut word: u32 = 0;
    bit_set(&mut word, 5);
    assert_eq!(word, 32);
    assert!(is_bit_set(word, 5));
    assert!(!is_bit_set(word, 4));

    bit_set(&mut word, 0);
    assert_eq!(word, 33);

    bit_clr(&mut word, 5);
    assert_eq!(word, 1);
    assert!(!is_bit_set(word, 5));
}
