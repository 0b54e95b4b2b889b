use reliable_net::netbuffers::{
    NetworkBufferManager, NetworkBufferManagerProbe, MAX_PACKET_BUFFER_SIZE,
};
use reliable_net::packet::Packet;
use reliable_net::utils::is_bit_set;

#[test]
fn test_network_buffer_creation() {
    let udp_buffer: NetworkBufferManager = NetworkBufferManager::new();

    assert_eq!(udp_buffer.sent_packet_buffer.len(), MAX_PACKET_BUFFER_SIZE);
    assert_eq!(udp_buffer.rx_acks.len(), MAX_PACKET_BUFFER_SIZE);

    assert_eq!(udp_buffer.sent_packet_buffer.capacity(), MAX_PACKET_BUFFER_SIZE);
    assert_eq!(udp_buffer.rx_acks.capacity(), MAX_PACKET_BUFFER_SIZE);
}

#[test]
fn test_network_buffer_insertion() {
    let mut udp_buffer: NetworkBufferManager = NetworkBufferManager::new();
    let mut temp_packet: Packet = Packet::new();
    let user_name = String::from("network buffer tester");
    let seq_num: u32 = 1000;
    let bfr_index: usize = (seq_num as usize) % MAX_PACKET_BUFFER_SIZE;

    temp_packet.set_sequence_number(seq_num);
    temp_packet.set_client_id(user_name.clone());
    temp_packet.set_ackbit(3); // assume we have already received ack for pkt 3

    match udp_buffer.insert(&temp_packet) {
        Ok(n) => {
            if n == NetworkBufferManagerProbe::Inserted {
                println!("[test_network_buffer_insertion] Packet inserted successfully.");

                let inserted_packet: &Packet = &udp_buffer.sent_packet_buffer[bfr_index];

                println!("{:?}", inserted_packet);

                let ack_bits = inserted_packet.get_ackbits();

                assert_eq!(is_bit_set(ack_bits, 8), false); // We did not get the ack for this yet
                assert_eq!(inserted_packet.get_sequence_num(), 1000 as u32);
                assert_eq!(is_bit_set(ack_bits, 3), true);
                assert_eq!(is_bit_set(ack_bits, 0), false);
            } else {
                println!("[test_network_buffer_insertion] Packet already present in buffer.");
            }
        },
        Err(_) => {
            panic!("[test_network_buffer_insertion] Network Buffer is full! This should never occur.")
        },
    }
}

#[test]
fn test_network_buffer_fill() {
    let mut udp_buffer: NetworkBufferManager = NetworkBufferManager::new();
    let mut seq_num: u32 = 1000;

    for x in 0..33 {
        let mut temp_packet: Packet = Packet::new();
        let user_name = String::from("network buffer tester");

        temp_packet.set_sequence_number(seq_num);
        temp_packet.set_client_id(user_name.clone());

        let index: usize = (seq_num as usize) % 32;

        match udp_buffer.insert(&temp_packet) {
            Ok(n) => {
                if n == NetworkBufferManagerProbe::Inserted {
                    println!("Packet inserted successfully.");

                    let inserted_packet: &Packet = &udp_buffer.sent_packet_buffer[index];

                    assert_eq!(inserted_packet.get_sequence_num(), seq_num as u32);
                } else if n == NetworkBufferManagerProbe::Exists {
                    println!("Packet already present in buffer.");
                }
            },
            Err(_) => {
                // In this case we will have wrapped on our buffer and have tried to insert
                // packet#33 of seq_num=1032.
                let last_inserted_packet: &Packet = &udp_buffer.sent_packet_buffer[index - 1];

                assert_eq!(x, 32);
                assert_eq!(last_inserted_packet.get_sequence_num(), 1031);
                println!("Network Buffer is full! This should never occur.");
            },
        }
        seq_num += 1;
    }
}

#[test]
fn test_network_buffer_empty() {
    let mut udp_buffer: NetworkBufferManager = NetworkBufferManager::new();

    match udp_buffer.remove(0) {
        Ok(_) => {
            panic!("Network Buffer should be empty!")
        },
        Err(_) => {
            assert_eq!(udp_buffer.len(), 0);
            println!("Network Buffer is properly empty.");
        },
    }
}

#[test]
fn test_network_buffer_filled_then_emptied() {
    let mut udp_buffer: NetworkBufferManager = NetworkBufferManager::new();

    for x in 0..2 {
        let index = x as u32;
        let mut temp_packet: Packet = Packet::new();
        let ack: u32 = index % (MAX_PACKET_BUFFER_SIZE as u32);

        temp_packet.set_sequence_number(index);
        temp_packet.set_ack(ack);

        let _ = udp_buffer.insert(&temp_packet);
    }

    let mut counter: u8 = 0;
    for x in 0..4 {
        match udp_buffer.remove(x) {
            Ok(_) => {
                assert_eq!(udp_buffer.len(), 1 - x);
            },
            Err(_) => {
                counter += 1;
                assert_eq!(udp_buffer.len(), 0);
            },
        }
    }

    assert_eq!(counter, 2);
}

#[test]
fn test_network_buffer_promotion() {
    let mut udp_buffer: NetworkBufferManager = NetworkBufferManager::new();

    let buffer_index_to_be_high_priority = vec![0, 10, 20, 21, 31];

    for x in buffer_index_to_be_high_priority.clone() {
        let index = x as u32;
        let mut temp_packet: Packet = Packet::new();
        let ack: u32 = index % (MAX_PACKET_BUFFER_SIZE as u32);

        temp_packet.set_sequence_number(index);
        temp_packet.set_ack(ack);

        let _ = udp_buffer.insert(&temp_packet);
    }

    // We have sent packets `to_be_high_priority` but no ack bits are set
    // For now we'll consider these high priority regardless

    udp_buffer.promote_packets();

    for x in buffer_index_to_be_high_priority.clone() {
        assert_eq!(udp_buffer.high_priority_acks[x], true);
    }

    for x in 1..10 {
        assert_eq!(udp_buffer.high_priority_acks[x], false);
    }

    for x in 11..20 {
        assert_eq!(udp_buffer.high_priority_acks[x], false);
    }

    for x in 22..30 {
        assert_eq!(udp_buffer.high_priority_acks[x], false);
    }
}

#[test]
fn test_network_buffer_received() {}

#[test]
fn test_network_buffer_send_receive_sequence_normal() {}

#[test]
fn test_network_buffer_send_receive_sequence_dropped_packets() {}

#[test]
fn test_network_buffer_send_receive_sequence_high_priority_packets() {}

#[test]
fn buffer_full_then_removal_reopens_slot() {
    let mut udp_buffer = NetworkBufferManager::new();

    for seq in 0..32u32 {
        let mut temp_packet = Packet::new();
        temp_packet.set_sequence_number(seq);
        assert_eq!(udp_buffer.insert(&temp_packet), Ok(NetworkBufferManagerProbe::Inserted));
    }

    let mut overflow_packet = Packet::new();
    overflow_packet.set_sequence_number(32);
    assert_eq!(udp_buffer.insert(&overflow_packet), Err(NetworkBufferManagerProbe::Full));

    assert_eq!(udp_buffer.remove(0), Ok(NetworkBufferManagerProbe::Removed));
    assert_eq!(udp_buffer.insert(&overflow_packet), Ok(NetworkBufferManagerProbe::Inserted));
}

#[test]
fn promotion_skips_consistent_slots() {
    let mut udp_buffer = NetworkBufferManager::new();

    // slot 4: sent and already confirmed -- flags agree, no promotion
    let mut sent_packet = Packet::new();
    sent_packet.set_sequence_number(4);
    let _ = udp_buffer.insert(&sent_packet);
    udp_buffer.rx_acks[4] = true;

    // slot 9: confirmed without a matching send -- flags disagree
    udp_buffer.rx_acks[9] = true;

    udp_buffer.promote_packets();

    assert_eq!(udp_buffer.high_priority_acks[4], false);
    assert_eq!(udp_buffer.high_priority_acks[9], true);
}

#[test]
fn removal_resets_the_slot_to_an_empty_packet() {
    let mut udp_buffer = NetworkBufferManager::new();

    let mut temp_packet = Packet::new();
    temp_packet.set_sequence_number(6);
    temp_packet.set_ack(3);
    temp_packet.set_ackbit(9);
    temp_packet.set_client_id(String::from("network buffer tester"));
    temp_packet.set_data(vec![1, 2, 3]);
    temp_packet.calculate_checksum();
    assert_eq!(udp_buffer.insert(&temp_packet), Ok(NetworkBufferManagerProbe::Inserted));

    assert_eq!(udp_buffer.remove(6), Ok(NetworkBufferManagerProbe::Removed));

    let slot = &udp_buffer.sent_packet_buffer[6];
    assert_eq!(slot.get_signature(), 0x4C494645);
    assert_eq!(slot.get_checksum(), 0);
    assert_eq!(slot.get_client_id(), 0);
    assert_eq!(slot.get_sequence_num(), 0);
    assert_eq!(slot.get_ack(), 0);
    assert_eq!(slot.get_ackbits(), 0);
    assert_eq!(slot.get_data().raw_data.len(), 1472 - 28);
    assert!(slot.get_data().raw_data.iter().all(|b| *b == 0));
}
