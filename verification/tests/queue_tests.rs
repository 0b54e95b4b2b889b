#![allow(non_snake_case)]

use reliable_net::queue::{PacketData, PacketQueue};
use reliable_net::sequence::{bit_index_for_sequence, sequence_more_recent};

#[test]
fn TestSequenceMoreRecent() {
    assert_eq!(true, sequence_more_recent(&4, &1, &10));
    assert_eq!(false, sequence_more_recent(&1, &4, &10));
}

#[test]
fn TestPacketQueueExists() {
    let mut packet_queue = PacketQueue::new();
    let mut packet_data = PacketData { sequence: 100, size: 100, time: 4170 };

    packet_queue.push_back(packet_data.clone());
    packet_data.sequence += 1;

    packet_queue.push_back(packet_data.clone());
    packet_data.sequence += 1;

    packet_queue.push_back(packet_data.clone());
    packet_data.sequence += 1;

    assert_eq!(packet_queue.contains_sequence(100), true);
    assert_eq!(packet_queue.contains_sequence(102), true);
    assert_eq!(packet_queue.contains_sequence(99), false);
}

#[test]
fn TestInsertQueueAtHead() {
    let mut packet_queue = PacketQueue::new();
    let mut packet_data = PacketData { sequence: 100, size: 100, time: 4170 };
    let max_sequence = 0xFFFFFFFF as u32;

    packet_queue.insert_sorted(packet_data.clone(), max_sequence);
    packet_data.sequence += 1;

    packet_queue.insert_sorted(packet_data.clone(), max_sequence);
    packet_data.sequence += 1;

    packet_queue.insert_sorted(packet_data.clone(), max_sequence);
    packet_data.sequence += 1;

    assert_eq!(packet_queue.contains_sequence(100), true);
    assert_eq!(packet_queue.contains_sequence(101), true);
    assert_eq!(packet_queue.contains_sequence(102), true);
    assert_eq!(packet_queue.contains_sequence(99), false);

    println!("{:?}", packet_queue.queue);

    packet_data.sequence = 99;
    packet_queue.insert_sorted(packet_data.clone(), max_sequence);

    assert_eq!(packet_queue.contains_sequence(99), true);
    let index = packet_queue.find_index_for_sequence(99);

    println!("{:?}", packet_queue.queue);

    assert_eq!(index, 0);
}

#[test]
fn TestInsertQueueAtTail() {
    let mut packet_queue = PacketQueue::new();
    let mut packet_data = PacketData { sequence: 100, size: 100, time: 4170 };
    let max_sequence = 0xFFFFFFFF as u32;

    packet_queue.insert_sorted(packet_data.clone(), max_sequence);
    packet_data.sequence += 1;

    packet_queue.insert_sorted(packet_data.clone(), max_sequence);
    packet_data.sequence += 1;

    packet_queue.insert_sorted(packet_data.clone(), max_sequence);
    packet_data.sequence += 1;

    assert_eq!(packet_queue.contains_sequence(100), true);
    assert_eq!(packet_queue.contains_sequence(101), true);
    assert_eq!(packet_queue.contains_sequence(102), true);
    assert_eq!(packet_queue.contains_sequence(103), false);

    packet_data.sequence = 103;
    packet_queue.insert_sorted(packet_data.clone(), max_sequence);

    assert_eq!(packet_queue.contains_sequence(103), true);
    let index = packet_queue.find_index_for_sequence(103);
    assert_eq!(index, 3);
}

#[test]
fn TestInsertQueueAtMiddle() {
    let mut packet_queue = PacketQueue::new();
    let mut packet_data = PacketData { sequence: 100, size: 100, time: 4170 };
    let max_sequence = 0xFFFFFFFF as u32;

    packet_queue.insert_sorted(packet_data.clone(), max_sequence);
    packet_data.sequence += 1;

    packet_queue.insert_sorted(packet_data.clone(), max_sequence);
    packet_data.sequence += 2;

    packet_queue.insert_sorted(packet_data.clone(), max_sequence);

    assert_eq!(packet_queue.contains_sequence(100), true);
    assert_eq!(packet_queue.contains_sequence(101), true);
    assert_eq!(packet_queue.contains_sequence(103), true);
    assert_eq!(packet_queue.contains_sequence(102), false);

    packet_data.sequence = 102;
    packet_queue.insert_sorted(packet_data.clone(), max_sequence);

    assert_eq!(packet_queue.contains_sequence(102), true);
    let index = packet_queue.find_index_for_sequence(102);
    assert_eq!(index, 2);
}

#[test]
fn TestSequenceNotPresent() {
    let mut packet_queue = PacketQueue::new();
    let mut packet_data = PacketData { sequence: 100, size: 100, time: 4170 };
    let max_sequence = 0xFFFFFFFF as u32;

    packet_queue.insert_sorted(packet_data.clone(), max_sequence);
    packet_data.sequence += 1;

    packet_queue.insert_sorted(packet_data.clone(), max_sequence);
    packet_data.sequence += 2;

    packet_queue.insert_sorted(packet_data.clone(), max_sequence);

    assert_eq!(packet_queue.contains_sequence(100), true);
    assert_eq!(packet_queue.contains_sequence(101), true);
    assert_eq!(packet_queue.contains_sequence(103), true);
    assert_eq!(packet_queue.contains_sequence(102), false);

    packet_data.sequence = 108;

    assert_eq!(packet_queue.contains_sequence(108), false);
    let index = packet_queue.find_index_for_sequence(108);
    assert_eq!(index, 0xFF);
}

#[test]
fn TestVerifySequencingPass() {
    let mut packet_queue = PacketQueue::new();
    let mut packet_data = PacketData { sequence: 100, size: 100, time: 4170 };
    let max_sequence = 0xFFFFFFFF as u32;

    packet_queue.insert_sorted(packet_data.clone(), max_sequence);
    packet_data.sequence += 1;

    packet_queue.insert_sorted(packet_data.clone(), max_sequence);
    packet_data.sequence += 2;

    packet_queue.insert_sorted(packet_data.clone(), max_sequence);

    assert_eq!(packet_queue.contains_sequence(100), true);
    assert_eq!(packet_queue.contains_sequence(101), true);
    assert_eq!(packet_queue.contains_sequence(103), true);
    assert_eq!(packet_queue.contains_sequence(102), false);

    assert!(packet_queue.verify_sequencing(0xFFFFFFFF));
}

#[test]
fn verify_sequencing_detects_disorder() {
    let mut packet_queue = PacketQueue::new();

    packet_queue.push_back(PacketData { sequence: 100, size: 3, time: 0 });
    packet_queue.push_back(PacketData { sequence: 99, size: 3, time: 0 });

    assert!(!packet_queue.verify_sequencing(0xFFFFFFFF));
}

#[test]
fn insert_sorted_keeps_order_for_any_permutation() {
    let max_sequence: u32 = 255;
    let permutations: [[u32; 6]; 4] = [
        [0, 1, 2, 3, 4, 5],
        [5, 4, 3, 2, 1, 0],
        [3, 0, 5, 1, 4, 2],
        [2, 5, 0, 4, 1, 3],
    ];

    for perm in permutations.iter() {
        let mut packet_queue = PacketQueue::new();
        for seq in perm.iter() {
            packet_queue.insert_sorted(
                PacketData { sequence: *seq, size: 3, time: 314 },
                max_sequence,
            );
            assert!(packet_queue.verify_sequencing(max_sequence));
        }
        for seq in 0..6u32 {
            assert!(packet_queue.contains_sequence(seq));
        }
    }
}

#[test]
fn insert_sorted_handles_wraparound() {
    let max_sequence: u32 = 255;
    let mut packet_queue = PacketQueue::new();

    for seq in 250..=255u32 {
        packet_queue.insert_sorted(PacketData { sequence: seq, size: 3, time: 0 }, max_sequence);
        assert!(packet_queue.verify_sequencing(max_sequence));
    }
    for seq in 0..6u32 {
        packet_queue.insert_sorted(PacketData { sequence: seq, size: 3, time: 0 }, max_sequence);
        assert!(packet_queue.verify_sequencing(max_sequence));
    }

    // the wrapped sequence 0 is more recent than 255
    assert!(sequence_more_recent(&0, &255, &max_sequence));
    assert_eq!(packet_queue.find_index_for_sequence(250), 0);
    assert_eq!(packet_queue.find_index_for_sequence(5), 11);
}

#[test]
fn bit_index_counts_slots_behind_ack() {
    // one packet behind the ack sits at window slot 0
    assert_eq!(bit_index_for_sequence(4, 5, 0xFFFFFFFF), 0);
    assert_eq!(bit_index_for_sequence(0, 5, 0xFFFFFFFF), 4);
    // wrapped: the highest sequence is one slot behind ack 0
    assert_eq!(bit_index_for_sequence(0xFFFFFFFF, 0, 0xFFFFFFFF), 0);
    assert_eq!(bit_index_for_sequence(255, 0, 255), 0);
    assert_eq!(bit_index_for_sequence(254, 1, 255), 2);
}

#[test]
fn more_recent_is_antisymmetric_on_samples() {
    let max_sequence: u32 = 10;
    for a in 0..=10u32 {
        for b in 0..=10u32 {
            let ab = sequence_more_recent(&a, &b, &max_sequence);
            let ba = sequence_more_recent(&b, &a, &max_sequence);
            if a == b {
                assert!(!ab && !ba);
            } else {
                assert_ne!(ab, ba);
            }
        }
    }
}

#[test]
fn insert_sorted_caps_the_insertion_window() {
    let max_sequence: u32 = 255;
    let mut packet_queue = PacketQueue::new();

    // a long queue missing sequence 35: its slot lies past the 32-entry
    // insertion window, so a late arrival for it is dropped
    for seq in 0..41u32 {
        if seq != 35 {
            packet_queue.insert_sorted(
                PacketData { sequence: seq, size: 1, time: 0 },
                max_sequence,
            );
        }
    }
    packet_queue.insert_sorted(PacketData { sequence: 35, size: 1, time: 0 }, max_sequence);
    assert!(!packet_queue.contains_sequence(35));
    assert!(packet_queue.verify_sequencing(max_sequence));

    // a gap inside the window is still filled
    let mut short_queue = PacketQueue::new();
    for seq in [0u32, 1, 2, 4, 5] {
        short_queue.insert_sorted(PacketData { sequence: seq, size: 1, time: 0 }, max_sequence);
    }
    short_queue.insert_sorted(PacketData { sequence: 3, size: 1, time: 0 }, max_sequence);
    assert!(short_queue.contains_sequence(3));
    assert_eq!(short_queue.find_index_for_sequence(3), 3);
    assert!(short_queue.verify_sequencing(max_sequence));
}
