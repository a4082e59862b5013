use batch_vm::dedup::{deduplicated_queries, deduplicated_storage_logs, net_writes};
use batch_vm::storage::{
    find_latest, InMemoryStorage, StorageCell, StorageKey, StorageLogQuery, StorageOracle,
};
use std::rc::Rc;

fn key(address: u64, slot: u64) -> StorageKey {
    StorageKey { address, slot }
}

fn oracle_over(cells: &[(StorageKey, u64)]) -> StorageOracle {
    let mut backing = InMemoryStorage::new();
    for (key, value) in cells {
        backing.set_value(*key, *value);
    }
    StorageOracle::new(Rc::new(backing))
}

#[test]
fn unset_slots_read_as_zero() {
    let mut storage = InMemoryStorage::new();
    assert_eq!(storage.read_value(key(1, 1)), 0);
    storage.set_value(key(1, 1), 5);
    storage.set_value(key(1, 2), 6);
    storage.set_value(key(1, 1), 7);
    assert_eq!(storage.read_value(key(1, 1)), 7);
    assert_eq!(storage.read_value(key(1, 2)), 6);
    assert_eq!(storage.read_value(key(2, 1)), 0);
}

#[test]
fn latest_cell_wins() {
    let cells = vec![
        StorageCell { key: key(1, 1), value: 1 },
        StorageCell { key: key(1, 2), value: 2 },
        StorageCell { key: key(1, 1), value: 3 },
    ];
    assert_eq!(find_latest(&cells, key(1, 1)), Some(3));
    assert_eq!(find_latest(&cells, key(1, 2)), Some(2));
    assert_eq!(find_latest(&cells, key(1, 3)), None);
    assert_eq!(find_latest(&Vec::new(), key(1, 1)), None);
}

#[test]
fn reads_and_writes_are_recorded_with_the_value_before() {
    let mut oracle = oracle_over(&[(key(1, 1), 10)]);
    assert_eq!(oracle.read(key(1, 1), 0), 10);
    assert_eq!(oracle.write(key(1, 1), 11, 0), 0);
    assert_eq!(oracle.write(key(1, 1), 12, 1), 20);
    assert_eq!(oracle.peek(key(1, 1)), 12);
    assert_eq!(oracle.read(key(1, 2), 1), 0);
    assert_eq!(oracle.log_len(), 4);
    assert_eq!(oracle.pending_depth(), 2);
    let log = oracle.log_since(0);
    assert_eq!(
        log[0],
        StorageLogQuery {
            timestamp: 0,
            tx_number: 0,
            key: key(1, 1),
            read_value: 10,
            written_value: 10,
            rw_flag: false,
            rollback: false,
        }
    );
    assert_eq!(
        log[2],
        StorageLogQuery {
            timestamp: 2,
            tx_number: 1,
            key: key(1, 1),
            read_value: 11,
            written_value: 12,
            rw_flag: true,
            rollback: false,
        }
    );
    assert_eq!(oracle.log_since(3).len(), 1);
    assert_eq!(oracle.log_since(4).len(), 0);
    assert_eq!(oracle.log_since(9).len(), 0);
    assert_eq!(oracle.returned_refunds(), vec![0, 20]);
}

#[test]
fn reverting_undoes_the_latest_writes_first() {
    let mut oracle = oracle_over(&[(key(1, 1), 10)]);
    oracle.write(key(1, 1), 11, 0);
    oracle.write(key(1, 2), 5, 0);
    oracle.write(key(1, 1), 12, 0);
    oracle.revert_to_depth(1, 3);
    assert_eq!(oracle.pending_depth(), 1);
    assert_eq!(oracle.peek(key(1, 1)), 11);
    assert_eq!(oracle.peek(key(1, 2)), 0);
    let log = oracle.log_since(3);
    assert_eq!(log.len(), 2);
    assert_eq!(
        log[0],
        StorageLogQuery {
            timestamp: 3,
            tx_number: 3,
            key: key(1, 1),
            read_value: 11,
            written_value: 12,
            rw_flag: true,
            rollback: true,
        }
    );
    assert_eq!(log[1].key, key(1, 2));
    assert_eq!(log[1].timestamp, 4);
    oracle.revert_to_depth(5, 3);
    assert_eq!(oracle.log_len(), 5);
    oracle.revert_to_depth(0, 3);
    assert_eq!(oracle.log_len(), 6);
    assert_eq!(oracle.peek(key(1, 1)), 10);
    assert_eq!(oracle.returned_refunds(), vec![0, 0, 20]);
}

#[test]
fn truncating_the_log_puts_the_slots_back() {
    let mut oracle = oracle_over(&[(key(1, 1), 10)]);
    oracle.write(key(1, 1), 11, 0);
    oracle.read(key(1, 1), 0);
    oracle.write(key(1, 2), 5, 0);
    oracle.revert_to_depth(1, 0);
    oracle.write(key(1, 1), 13, 0);
    assert_eq!(oracle.log_len(), 5);
    oracle.truncate_log(9);
    assert_eq!(oracle.log_len(), 5);
    oracle.truncate_log(4);
    assert_eq!(oracle.peek(key(1, 1)), 11);
    assert_eq!(oracle.peek(key(1, 2)), 0);
    assert_eq!(oracle.pending_depth(), 1);
    oracle.truncate_log(3);
    assert_eq!(oracle.peek(key(1, 2)), 5);
    assert_eq!(oracle.pending_depth(), 2);
    assert_eq!(oracle.returned_refunds(), vec![0, 0]);
    oracle.truncate_log(0);
    assert_eq!(oracle.peek(key(1, 1)), 10);
    assert_eq!(oracle.pending_depth(), 0);
    assert_eq!(oracle.returned_refunds().len(), 0);
    assert_eq!(oracle.write(key(1, 1), 3, 0), 0);
    assert_eq!(oracle.log_since(0)[0].timestamp, 0);
}

#[test]
fn deduplication_nets_each_slot() {
    let mut oracle = oracle_over(&[(key(5, 5), 1)]);
    oracle.write(key(7, 0), 2, 0);
    oracle.read(key(5, 5), 0);
    oracle.write(key(5, 5), 3, 0);
    oracle.write(key(5, 5), 4, 1);
    oracle.write(key(6, 9), 8, 1);
    oracle.revert_to_depth(3, 1);
    oracle.read(key(2, 2), 1);
    let delta = deduplicated_storage_logs(&oracle);
    assert_eq!(delta.len(), 2);
    assert_eq!(
        delta[0],
        StorageLogQuery {
            timestamp: 0,
            tx_number: 0,
            key: key(5, 5),
            read_value: 1,
            written_value: 4,
            rw_flag: true,
            rollback: false,
        }
    );
    assert_eq!(
        delta[1],
        StorageLogQuery {
            timestamp: 0,
            tx_number: 0,
            key: key(7, 0),
            read_value: 0,
            written_value: 2,
            rw_flag: true,
            rollback: false,
        }
    );
    assert!(delta.len() <= oracle.log_len());
}

#[test]
fn deduplication_of_an_empty_log_is_empty() {
    let oracle = oracle_over(&[]);
    assert_eq!(deduplicated_storage_logs(&oracle).len(), 0);
}

#[test]
fn slots_that_differ_only_in_address_are_told_apart() {
    let mut oracle = oracle_over(&[]);
    oracle.write(key(u64::MAX, 0), 1, 0);
    oracle.write(key(0, u64::MAX), u64::MAX, 0);
    oracle.write(key(0, 0), 3, 0);
    let delta = deduplicated_storage_logs(&oracle);
    let keys: Vec<StorageKey> = delta.iter().map(|entry| entry.key).collect();
    assert_eq!(keys, vec![key(0, 0), key(0, u64::MAX), key(u64::MAX, 0)]);
    assert_eq!(delta[1].written_value, u64::MAX);
}

#[test]
fn net_writes_keeps_the_writes_in_order() {
    let entry = |slot: u64, rw_flag: bool| StorageLogQuery {
        timestamp: 0,
        tx_number: 0,
        key: key(1, slot),
        read_value: 0,
        written_value: if rw_flag { 1 } else { 0 },
        rw_flag,
        rollback: false,
    };
    let entries = vec![entry(1, true), entry(2, false), entry(3, true), entry(4, false)];
    let writes = net_writes(&entries);
    assert_eq!(writes, vec![entry(1, true), entry(3, true)]);
    assert_eq!(net_writes(&Vec::new()).len(), 0);
}

fn read_of(key: StorageKey, value: u64) -> StorageLogQuery {
    StorageLogQuery {
        timestamp: 0,
        tx_number: 0,
        key,
        read_value: value,
        written_value: value,
        rw_flag: false,
        rollback: false,
    }
}

#[test]
fn a_slot_that_was_only_read_is_kept_as_a_read() {
    let mut oracle = oracle_over(&[(key(1, 1), 10)]);
    oracle.read(key(1, 1), 0);
    oracle.read(key(1, 1), 1);
    assert_eq!(deduplicated_queries(&oracle), vec![read_of(key(1, 1), 10)]);
    assert_eq!(deduplicated_storage_logs(&oracle).len(), 0);
}

#[test]
fn writes_that_cancel_out_are_kept_as_a_read() {
    let mut oracle = oracle_over(&[(key(1, 1), 10)]);
    oracle.write(key(1, 1), 11, 0);
    oracle.write(key(1, 1), 10, 0);
    assert_eq!(deduplicated_queries(&oracle), vec![read_of(key(1, 1), 10)]);
    assert_eq!(deduplicated_storage_logs(&oracle).len(), 0);
}

#[test]
fn writes_that_were_all_undone_leave_no_entry() {
    let mut oracle = oracle_over(&[(key(1, 1), 10)]);
    oracle.write(key(1, 1), 11, 0);
    oracle.write(key(1, 1), 12, 0);
    oracle.revert_to_depth(0, 0);
    assert_eq!(deduplicated_queries(&oracle).len(), 0);
    oracle.read(key(1, 1), 0);
    assert_eq!(deduplicated_queries(&oracle), vec![read_of(key(1, 1), 10)]);
}

#[test]
fn a_read_behind_a_pending_write_does_not_count() {
    let mut oracle = oracle_over(&[(key(1, 1), 10), (key(0, 7), 4)]);
    oracle.write(key(1, 1), 11, 0);
    oracle.read(key(1, 1), 0);
    oracle.revert_to_depth(0, 0);
    oracle.read(key(0, 7), 0);
    oracle.write(key(0, 7), 5, 0);
    let entries = deduplicated_queries(&oracle);
    assert_eq!(entries.len(), 1);
    assert_eq!(entries[0].key, key(0, 7));
    assert!(entries[0].rw_flag);
    assert_eq!((entries[0].read_value, entries[0].written_value), (4, 5));
}
