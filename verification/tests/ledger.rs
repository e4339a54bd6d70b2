use std::collections::HashSet;

use mesh_core::packet_history::{PacketHistory, PacketHistoryStore, PacketKey, PacketRecord};
use mesh_core::packets::MeshPacket;

fn bare_packet(from: u32, id: u32) -> MeshPacket {
    MeshPacket { from, id, ..Default::default() }
}

#[test]
fn hash_is_equal_for_same_id_and_sender() {
    let record_1 = PacketRecord { id: 1, sender: 2, seen_at: 10 };

    let record_2 = PacketRecord { id: 1, sender: 2, seen_at: 20 };

    let mut test_set: HashSet<PacketKey> = HashSet::new();
    test_set.insert(record_1.key());

    assert!(test_set.contains(&record_2.key()));
}

#[test]
fn hash_is_unique_for_same_id_diff_sender() {
    let record_1 = PacketRecord { id: 1, sender: 4, seen_at: 10 };

    let record_2 = PacketRecord { id: 1, sender: 2, seen_at: 20 };

    let mut test_set: HashSet<PacketKey> = HashSet::new();
    test_set.insert(record_1.key());

    assert!(!test_set.contains(&record_2.key()));
}

#[test]
fn hash_is_unique_for_diff_id_same_sender() {
    let record_1 = PacketRecord { id: 1, sender: 2, seen_at: 10 };

    let record_2 = PacketRecord { id: 4, sender: 2, seen_at: 20 };

    let mut test_set: HashSet<PacketKey> = HashSet::new();
    test_set.insert(record_1.key());

    assert!(!test_set.contains(&record_2.key()));
}

#[test]
fn packet_not_seen_returns_false() {
    let history = PacketHistoryStore::new(100, 300_000);

    let packet = bare_packet(0, 1);

    assert!(!history.query_was_seen_recently(&packet));
}

#[test]
fn packet_seen_returns_true() {
    let mut history = PacketHistoryStore::new(100, 300_000);

    let packet = bare_packet(0, 1);

    assert!(!history.query_was_seen_recently(&packet)); // Not seen
    history.record_seen_recently(&packet, 0);
    assert!(history.query_was_seen_recently(&packet)); // Seen
}

#[test]
fn valid_record_inserted() {
    let mut history = PacketHistoryStore::new(100, 300_000);

    let packet = bare_packet(0, 1);

    assert!(!history.query_was_seen_recently(&packet)); // Not seen
    history.record_seen_recently(&packet, 0);
    assert!(history.query_was_seen_recently(&packet)); // Seen
}

#[test]
fn expired_packets_cleared() {
    let mut history = PacketHistoryStore::new(100, 1);

    let packet = bare_packet(0, 1);
    history.record_seen_recently(&packet, 0);

    // Move time forward past the suppression window, then sweep.
    history.clear_expired_packets(2);

    // Should be cleared
    assert!(!history.query_was_seen_recently(&packet)); // Not seen
}

#[test]
fn seen_is_reported_whatever_the_timestamps() {
    let mut history = PacketHistoryStore::new(100, 300_000);

    let packet = bare_packet(3, 17);
    history.record_seen_recently(&packet, 1_000);

    // A later observation of the same (sender, id) matches the stored record
    // although the timestamps differ.
    assert!(history.query_was_seen_recently(&packet));
    history.record_seen_recently(&packet, 2_000);
    assert!(history.query_was_seen_recently(&packet));
}

#[test]
fn rerecord_leaves_occupancy_unchanged() {
    let mut history = PacketHistoryStore::new(100, 300_000);

    let packet = bare_packet(3, 17);
    history.record_seen_recently(&packet, 5);
    assert_eq!(history.len(), 1);

    history.record_seen_recently(&packet, 5);
    assert_eq!(history.len(), 1);
}

#[test]
fn expiry_is_definitive_not_soft() {
    let mut history = PacketHistoryStore::new(100, 1_000);

    let packet = bare_packet(9, 4);
    history.record_seen_recently(&packet, 0);
    assert!(history.query_was_seen_recently(&packet));

    history.clear_expired_packets(1_001);

    // Once swept, the key answers as never seen.
    assert!(!history.query_was_seen_recently(&packet));
    assert_eq!(history.len(), 0);
}

#[test]
fn sweep_keeps_fresh_records() {
    let mut history = PacketHistoryStore::new(100, 1_000);

    let stale = bare_packet(1, 1);
    let fresh = bare_packet(2, 2);
    history.record_seen_recently(&stale, 0);
    history.record_seen_recently(&fresh, 900);

    history.clear_expired_packets(1_500);

    assert!(!history.query_was_seen_recently(&stale));
    assert!(history.query_was_seen_recently(&fresh));
    assert_eq!(history.len(), 1);
}

#[test]
fn fill_threshold_triggers_sweep_on_record() {
    // Capacity 10: the tenth record pushes occupancy over 90% and sweeps.
    let mut history = PacketHistoryStore::new(10, 5);

    for id in 1..=9u32 {
        history.record_seen_recently(&bare_packet(1, id), 0);
    }
    assert_eq!(history.len(), 9);

    // Far past the window: every earlier record is stale by now.
    history.record_seen_recently(&bare_packet(1, 10), 100);

    // The sweep ran as a side effect of recording: only the new record stays.
    assert_eq!(history.len(), 1);
    assert!(history.query_was_seen_recently(&bare_packet(1, 10)));
    assert!(!history.query_was_seen_recently(&bare_packet(1, 1)));
}

#[test]
fn below_threshold_no_sweep_on_record() {
    let mut history = PacketHistoryStore::new(10, 5);

    history.record_seen_recently(&bare_packet(1, 1), 0);
    // Stale by now, but occupancy stays under the threshold: no sweep runs.
    history.record_seen_recently(&bare_packet(1, 2), 100);

    assert_eq!(history.len(), 2);
    assert!(history.query_was_seen_recently(&bare_packet(1, 1)));
}
