use reliable_net::communicate::build_packet;
use reliable_net::packet::Packet;
use reliable_net::utils::hash;

#[test]
fn packet_test_build_packet() {
    let username = String::from("LifeUser1");
    let hashed_username: u64 = hash(&username.clone());

    println!("Hash: {}", hashed_username);

    let mut synchronize_pkt = Packet::new();

    assert_eq!(0, synchronize_pkt.get_sequence_num());
    synchronize_pkt.inc_sequence_num();
    synchronize_pkt.inc_sequence_num();
    assert_eq!(2, synchronize_pkt.get_sequence_num());

    // Testing wrapped case
    for _ in 0..32 {
        synchronize_pkt.inc_sequence_num();
    }
    assert_eq!(2, synchronize_pkt.get_sequence_num());

    synchronize_pkt.set_client_id(username);
    assert_eq!(synchronize_pkt.get_client_id(), hashed_username);

    synchronize_pkt.set_ack(5);
    synchronize_pkt.set_ackbit(31);

    assert_eq!(5, synchronize_pkt.get_ack());
    assert_eq!(1, synchronize_pkt.is_ackbit_set(31));
    assert_eq!(0, synchronize_pkt.is_ackbit_set(5));

    let packet_data = vec![100, 3, 122, 255];
    synchronize_pkt.set_data(packet_data.clone());
    assert_eq!(packet_data[2], synchronize_pkt.get_data().raw_data[2]);
}

#[test]
fn communicate_test_build_packet() {
    let username = String::from("LifeUser1");
    let hashed_username: u64 = hash(&username.clone());
    let mut synchronize_pkt = build_packet();

    assert_eq!(0, synchronize_pkt.get_sequence_num());
    synchronize_pkt.inc_sequence_num();
    synchronize_pkt.inc_sequence_num();
    assert_eq!(2, synchronize_pkt.get_sequence_num());

    // Testing wrapped case
    for _ in 0..32 {
        synchronize_pkt.inc_sequence_num();
    }
    assert_eq!(2, synchronize_pkt.get_sequence_num());

    synchronize_pkt.set_client_id(username);
    assert_eq!(synchronize_pkt.get_client_id(), hashed_username);

    synchronize_pkt.set_ack(5);
    synchronize_pkt.set_ackbit(31);

    assert_eq!(5, synchronize_pkt.get_ack());
    assert_eq!(1, synchronize_pkt.is_ackbit_set(31));
    assert_eq!(0, synchronize_pkt.is_ackbit_set(5));

    let packet_data = vec![100, 3, 122, 255];
    synchronize_pkt.set_data(packet_data.clone());
    assert_eq!(packet_data[2], synchronize_pkt.get_data().raw_data[2]);
}

#[test]
fn test_packet_crc32_empty_packet() {
    let mut packet = Packet::new();

    packet.calculate_checksum();

    let checksum = packet.get_checksum();

    println!("{}", checksum);

    assert_eq!(checksum, 0x8EC868F8);
}

#[test]
fn test_packet_crc32() {
    let username = String::from("LifeUser1");
    let mut packet = Packet::new();
    let packet_data = vec![100, 3, 122, 255];

    packet.set_data(packet_data.clone());
    packet.set_client_id(username);
    packet.calculate_checksum();

    let checksum = packet.get_checksum();

    assert_eq!(checksum, 0x6F947FE0);
}

#[test]
fn test_client_id_hashing() {
    let username = String::from("LifeUser1");
    let hashed_username: u64 = hash(&username.clone());

    println!("SOMETHING HERE");
    println!("Hash: {}", hashed_username);
}

#[test]
fn client_id_hash_is_deterministic() {
    let a = hash("LifeUser1");
    let b = hash(&String::from("LifeUser1"));
    assert_eq!(a, b);
}
