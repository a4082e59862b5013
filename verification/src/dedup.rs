//! Deduplication of the storage access log: from every access of a batch to
//! the net effect on each slot.
//!
//! Sorting and netting are done by the circuit sequencer's own routine, so
//! that what is committed is what the circuits expect. This module states
//! what that routine needs and gives, proves that the storage oracle's log
//! meets the first, and derives the committed delta from the second.

use crate::storage::{
    cells_of, is_rollback, is_write, lemma_lookup_push, lookup, pending_of, pending_write,
    valid_log, value_after, value_of, PendingWrite, StorageCell, StorageKey, StorageLogQuery,
    StorageOracle,
};
use circuit_sequencer_api::sort_storage_access::{sort_storage_access_queries, LogQueryLike};
use vstd::prelude::*;
use zk_evm::aux_structures::LogQuery;
use zk_evm::ethereum_types::{H160, U256};

verus! {

/// What the accesses to one slot amount to: its value before the first
/// access, its value now, the writes not undone (each as the value before
/// and the value written), and whether a read saw the slot while no write
/// to it was outstanding.
pub struct SlotHistory {
    pub initial: u64,
    pub current: u64,
    pub changes: Seq<(u64, u64)>,
    pub read_at_depth_zero: bool,
}

/// The histories after one more access, or `None` if the access does not
/// fit the history of its slot.
pub open spec fn record(histories: Map<StorageKey, SlotHistory>, entry: StorageLogQuery) -> Option<
    Map<StorageKey, SlotHistory>,
> {
    if !histories.contains_key(entry.key) {
        if !entry.rw_flag {
            Some(
                histories.insert(
                    entry.key,
                    SlotHistory {
                        initial: entry.read_value,
                        current: entry.read_value,
                        changes: Seq::empty(),
                        read_at_depth_zero: true,
                    },
                ),
            )
        } else if entry.rollback {
            None
        } else {
            Some(
                histories.insert(
                    entry.key,
                    SlotHistory {
                        initial: entry.read_value,
                        current: entry.written_value,
                        changes: seq![(entry.read_value, entry.written_value)],
                        read_at_depth_zero: false,
                    },
                ),
            )
        }
    } else {
        let slot = histories[entry.key];
        if !entry.rw_flag {
            if entry.read_value == slot.current {
                Some(
                    histories.insert(
                        entry.key,
                        SlotHistory {
                            read_at_depth_zero: slot.read_at_depth_zero || slot.changes.len() == 0,
                            ..slot
                        },
                    ),
                )
            } else {
                None
            }
        } else if !entry.rollback {
            if entry.read_value == slot.current {
                Some(
                    histories.insert(
                        entry.key,
                        SlotHistory {
                            current: entry.written_value,
                            changes: slot.changes.push((entry.read_value, entry.written_value)),
                            ..slot
                        },
                    ),
                )
            } else {
                None
            }
        } else if slot.changes.len() > 0 && slot.changes.last() == (
            entry.read_value,
            entry.written_value,
        ) && entry.written_value == slot.current {
            Some(
                histories.insert(
                    entry.key,
                    SlotHistory {
                        current: entry.read_value,
                        changes: slot.changes.drop_last(),
                        ..slot
                    },
                ),
            )
        } else {
            None
        }
    }
}

/// The slot histories that `log` leaves, or `None` if some access does not
/// fit.
pub open spec fn replay(log: Seq<StorageLogQuery>) -> Option<Map<StorageKey, SlotHistory>>
    decreases log.len(),
{
    if log.len() == 0 {
        Some(Map::empty())
    } else {
        match replay(log.drop_last()) {
            Some(histories) => record(histories, log.last()),
            None => None,
        }
    }
}

/// Whether every access of `log` fits, and every slot whose writes were all
/// undone is back at its first value.
pub open spec fn replayable(log: Seq<StorageLogQuery>) -> bool {
    &&& replay(log) matches Some(histories)
    &&& forall|key: StorageKey| #[trigger]
        histories.contains_key(key) && histories[key].changes.len() == 0
            ==> histories[key].initial == histories[key].current
}

/// The order of slots: by address, then by slot.
pub open spec fn key_below(a: StorageKey, b: StorageKey) -> bool {
    a.address < b.address || (a.address == b.address && a.slot < b.slot)
}

pub open spec fn sorted_by_key(entries: Seq<StorageLogQuery>) -> bool {
    forall|i: int, j: int|
        0 <= i < j < entries.len() ==> key_below((#[trigger] entries[i]).key, (
        #[trigger] entries[j]).key)
}

/// Whether a slot needs an entry: it was read while no write was
/// outstanding, or a write to it was not undone.
pub open spec fn observed(slot: SlotHistory) -> bool {
    slot.read_at_depth_zero || slot.changes.len() > 0
}

/// Whether `entry` is the net effect of the accesses to its slot: a write from
/// the first value to the current one if they differ, else a read.
pub open spec fn is_net_effect(histories: Map<StorageKey, SlotHistory>, entry: StorageLogQuery)
    -> bool {
    &&& histories.contains_key(entry.key)
    &&& observed(histories[entry.key])
    &&& entry.read_value == histories[entry.key].initial
    &&& entry.written_value == histories[entry.key].current
    &&& entry.rw_flag == (histories[entry.key].initial != histories[entry.key].current)
    &&& !entry.rollback
    &&& entry.timestamp == 0
    &&& entry.tx_number == 0
}

/// Whether `entries` are the net effects of `log`: one entry for each
/// observed slot, in the order of the slots.
pub open spec fn is_deduplicated(log: Seq<StorageLogQuery>, entries: Seq<StorageLogQuery>)
    -> bool {
    &&& replay(log) matches Some(histories)
    &&& sorted_by_key(entries)
    &&& forall|i: int| 0 <= i < entries.len() ==> is_net_effect(histories, #[trigger] entries[i])
    &&& forall|key: StorageKey| #[trigger]
        histories.contains_key(key) && observed(histories[key]) ==> exists|i: int|
            0 <= i < entries.len() && (#[trigger] entries[i]).key == key
}

/// Calls `sort_storage_access_queries` of the circuit sequencer and returns
/// its second result, the deduplicated queries. Addresses, slots and values
/// go over as the low 64 bits of the sequencer's wider words and come back
/// the same way; every access is put in shard 0.
///
/// That routine numbers the accesses in 32 bits, orders them by address,
/// key and number, and replays the accesses of each slot, checking each
/// against the slot's history; it panics on an access that does not fit.
/// Hence the two preconditions: the log is short enough to be numbered, and
/// it replays. For each slot the routine then emits nothing if the slot was
/// never read while no write to it was outstanding and all its writes were
/// undone; a read if its value is unchanged; and else one write from the
/// first value to the last. The entries come in the order of the slots. The
/// contract claims this and no more.
#[verifier::external_body]
fn sort_and_deduplicate(log: &Vec<StorageLogQuery>) -> (entries: Vec<StorageLogQuery>)
    requires
        log.len() <= u32::MAX,
        replayable(log@),
    ensures
        is_deduplicated(log@, entries@),
{
    let queries: Vec<LogQuery> = log.iter().map(|q| LogQuery {
        rollback: q.rollback,
        ..LogQuery::create_partially_filled_from_fields(0, H160::from_low_u64_be(q.key.address),
            U256::from(q.key.slot), U256::from(q.read_value), U256::from(q.written_value), q.rw_flag)
    }).collect();
    sort_storage_access_queries(queries.iter()).1.iter().map(|q| StorageLogQuery {
        timestamp: q.timestamp.0 as u64, tx_number: q.tx_number_in_block as u64,
        key: StorageKey { address: q.address.to_low_u64_be(), slot: q.key.low_u64() },
        read_value: q.read_value.low_u64(), written_value: q.written_value.low_u64(),
        rw_flag: q.rw_flag, rollback: q.rollback,
    }).collect()
}

/// The pending writes to one slot, each as the value before and the value
/// written.
pub open spec fn project(pending: Seq<PendingWrite>, key: StorageKey) -> Seq<(u64, u64)>
    decreases pending.len(),
{
    if pending.len() == 0 {
        Seq::empty()
    } else {
        let rest = project(pending.drop_last(), key);
        if pending.last().key == key {
            rest.push((pending.last().read_value, pending.last().written_value))
        } else {
            rest
        }
    }
}

proof fn lemma_project_push(pending: Seq<PendingWrite>, write: PendingWrite, key: StorageKey)
    ensures
        project(pending.push(write), key) == if write.key == key {
            project(pending, key).push((write.read_value, write.written_value))
        } else {
            project(pending, key)
        },
{
    assert(pending.push(write).drop_last() =~= pending);
}

/// Whether each write to the slot starts from what the one before it left.
pub open spec fn chained(slot: SlotHistory) -> bool {
    &&& slot.changes.len() == 0 ==> slot.current == slot.initial
    &&& slot.changes.len() > 0 ==> slot.current == slot.changes.last().1 && slot.changes[0].0
        == slot.initial
    &&& forall|i: int|
        0 < i < slot.changes.len() ==> (#[trigger] slot.changes[i]).0 == slot.changes[i - 1].1
}

/// Whether the history of `key` agrees with the oracle's own account of the
/// log: the slot starts at the backing store's value, stands at the value
/// the cells give, and its outstanding changes are the pending writes to it.
pub open spec fn slot_linked(
    backing: Map<StorageKey, u64>,
    log: Seq<StorageLogQuery>,
    histories: Map<StorageKey, SlotHistory>,
    key: StorageKey,
) -> bool {
    if histories.contains_key(key) {
        &&& histories[key].initial == backing[key]
        &&& histories[key].current == value_of(backing, log, key)
        &&& histories[key].changes == project(pending_of(log), key)
        &&& chained(histories[key])
    } else {
        &&& lookup(cells_of(log), key) is None
        &&& project(pending_of(log), key).len() == 0
    }
}

/// A faithful log replays slot by slot, and the histories it leaves agree
/// with the oracle's account of it.
pub proof fn lemma_valid_log_replays(backing: Map<StorageKey, u64>, log: Seq<StorageLogQuery>)
    requires
        valid_log(backing, log),
    ensures
        replay(log) is Some,
        forall|key: StorageKey| #[trigger] slot_linked(backing, log, replay(log).unwrap(), key),
        replayable(log),
    decreases log.len(),
{
    if log.len() > 0 {
        let init = log.drop_last();
        let entry = log.last();
        lemma_valid_log_replays(backing, init);
        let before = replay(init).unwrap();
        assert(slot_linked(backing, init, before, entry.key));
        let cells = cells_of(init);
        let pending = pending_of(init);
        let after = record(before, entry).unwrap();
        assert forall|key: StorageKey| #[trigger] slot_linked(backing, log, after, key) by {
            assert(slot_linked(backing, init, before, key));
            if entry.rw_flag {
                lemma_lookup_push(
                    cells,
                    StorageCell { key: entry.key, value: value_after(entry) },
                    key,
                );
            }
            if is_write(entry) {
                lemma_project_push(pending, pending_write(entry), key);
                if key == entry.key && before.contains_key(key) {
                    assert(after[key].changes =~= before[key].changes.push(
                        (entry.read_value, entry.written_value),
                    ));
                }
            } else if is_rollback(entry) && key == entry.key {
                assert(after[key].changes =~= before[key].changes.drop_last());
            }
            if after.contains_key(key) {
                assert(after[key].changes =~= project(pending_of(log), key));
            }
        }
    }
}

/// What the batch commits: for each slot whose value at the end differs from
/// its value at the start, one write from the one to the other, in the
/// order of the slots; nothing for any other slot.
pub open spec fn is_committed_delta(
    backing: Map<StorageKey, u64>,
    log: Seq<StorageLogQuery>,
    delta: Seq<StorageLogQuery>,
) -> bool {
    &&& sorted_by_key(delta)
    &&& forall|i: int|
        0 <= i < delta.len() ==> {
            let entry = #[trigger] delta[i];
            &&& entry.rw_flag
            &&& !entry.rollback
            &&& entry.timestamp == 0
            &&& entry.tx_number == 0
            &&& entry.read_value == backing[entry.key]
            &&& entry.written_value == value_of(backing, log, entry.key)
            &&& entry.read_value != entry.written_value
        }
    &&& forall|key: StorageKey| #[trigger]
        value_of(backing, log, key) != backing[key] ==> exists|i: int|
            0 <= i < delta.len() && (#[trigger] delta[i]).key == key
}

/// Keeps the writes among `entries`, in their order.
pub fn net_writes(entries: &Vec<StorageLogQuery>) -> (writes: Vec<StorageLogQuery>)
    ensures
        writes@ == entries@.filter(|entry: StorageLogQuery| entry.rw_flag),
        sorted_by_key(entries@) ==> sorted_by_key(writes@),
        forall|j: int|
            0 <= j < writes@.len() ==> (#[trigger] writes@[j]).rw_flag && entries@.contains(
                writes@[j],
            ),
        forall|i: int|
            0 <= i < entries@.len() && (#[trigger] entries@[i]).rw_flag ==> writes@.contains(
                entries@[i],
            ),
{
    let mut writes: Vec<StorageLogQuery> = Vec::new();
    let ghost keep = |entry: StorageLogQuery| entry.rw_flag;
    let ghost mut origin: Seq<int> = Seq::empty();
    let mut i: usize = 0;
    while i < entries.len()
        invariant
            i <= entries.len(),
            keep == |entry: StorageLogQuery| entry.rw_flag,
            writes@ == entries@.take(i as int).filter(keep),
            origin.len() == writes@.len(),
            forall|j: int|
                0 <= j < writes@.len() ==> 0 <= #[trigger] origin[j] < i && writes@[j]
                    == entries@[origin[j]] && writes@[j].rw_flag,
            forall|j: int, k: int| 0 <= j < k < origin.len() ==> origin[j] < origin[k],
            forall|m: int|
                0 <= m < i && (#[trigger] entries@[m]).rw_flag ==> writes@.contains(entries@[m]),
        decreases entries.len() - i,
    {
        let entry = entries[i];
        proof {
            assert(entries@.take(i + 1) =~= entries@.take(i as int).push(entry));
            entries@.take(i as int).lemma_filter_push(entry, keep);
        }
        let ghost before = writes@;
        if entry.rw_flag {
            writes.push(entry);
            proof {
                origin = origin.push(i as int);
                assert forall|m: int| 0 <= m < i + 1 && (#[trigger] entries@[m]).rw_flag implies writes@.contains(
                    entries@[m],
                ) by {
                    if m < i {
                        let j = choose|j: int| 0 <= j < before.len() && before[j] == entries@[m];
                        assert(writes@[j] == entries@[m]);
                    } else {
                        assert(writes@[writes@.len() - 1] == entries@[m]);
                    }
                }
            }
        }
        i = i + 1;
    }
    proof {
        assert(entries@.take(i as int) =~= entries@);
        if sorted_by_key(entries@) {
            assert forall|j: int, k: int| 0 <= j < k < writes@.len() implies key_below(
                (#[trigger] writes@[j]).key,
                (#[trigger] writes@[k]).key,
            ) by {
                assert(key_below(entries@[origin[j]].key, entries@[origin[k]].key));
            }
        }
        assert forall|j: int| 0 <= j < writes@.len() implies (#[trigger] writes@[j]).rw_flag
            && entries@.contains(writes@[j]) by {
            assert(entries@[origin[j]] == writes@[j]);
        }
    }
    writes
}

/// The net writes among deduplicated entries are the committed delta.
pub proof fn lemma_net_writes_are_delta(
    backing: Map<StorageKey, u64>,
    log: Seq<StorageLogQuery>,
    entries: Seq<StorageLogQuery>,
    writes: Seq<StorageLogQuery>,
)
    requires
        valid_log(backing, log),
        is_deduplicated(log, entries),
        sorted_by_key(writes),
        forall|j: int|
            0 <= j < writes.len() ==> (#[trigger] writes[j]).rw_flag && entries.contains(writes[j]),
        forall|i: int|
            0 <= i < entries.len() && (#[trigger] entries[i]).rw_flag ==> writes.contains(
                entries[i],
            ),
    ensures
        is_committed_delta(backing, log, writes),
{
    lemma_valid_log_replays(backing, log);
    let histories = replay(log).unwrap();
    assert forall|i: int| 0 <= i < writes.len() implies {
        let entry = #[trigger] writes[i];
        &&& entry.rw_flag
        &&& !entry.rollback
        &&& entry.timestamp == 0
        &&& entry.tx_number == 0
        &&& entry.read_value == backing[entry.key]
        &&& entry.written_value == value_of(backing, log, entry.key)
        &&& entry.read_value != entry.written_value
    } by {
        let entry = writes[i];
        assert(slot_linked(backing, log, histories, entry.key));
    }
    assert forall|key: StorageKey| #[trigger]
        value_of(backing, log, key) != backing[key] implies exists|i: int|
        0 <= i < writes.len() && (#[trigger] writes[i]).key == key by {
        assert(slot_linked(backing, log, histories, key));
        let m = choose|m: int| 0 <= m < entries.len() && (#[trigger] entries[m]).key == key;
        assert(is_net_effect(histories, entries[m]));
        assert(writes.contains(entries[m]));
    }
}

/// Sorts and deduplicates the oracle's access log: one entry for each slot
/// that was observed, in the order of the slots; a write from the slot's
/// first value to its last where they differ, a read where they do not.
pub fn deduplicated_queries(oracle: &StorageOracle) -> (entries: Vec<StorageLogQuery>)
    requires
        oracle.wf(),
        oracle@.log.len() <= u32::MAX,
    ensures
        is_deduplicated(oracle@.log, entries@),
{
    let log = oracle.log_since(0);
    proof {
        oracle.lemma_wf_valid();
        assert(oracle@.log.skip(0) =~= oracle@.log);
        lemma_valid_log_replays(oracle@.backing, log@);
    }
    sort_and_deduplicate(&log)
}

/// Deduplicates the oracle's access log into what the batch commits.
pub fn deduplicated_storage_logs(oracle: &StorageOracle) -> (delta: Vec<StorageLogQuery>)
    requires
        oracle.wf(),
        oracle@.log.len() <= u32::MAX,
    ensures
        is_committed_delta(oracle@.backing, oracle@.log, delta@),
        delta@.len() <= oracle@.log.len(),
{
    let entries = deduplicated_queries(oracle);
    let delta = net_writes(&entries);
    proof {
        oracle.lemma_wf_valid();
        lemma_net_writes_are_delta(oracle@.backing, oracle@.log, entries@, delta@);
        lemma_delta_is_short(oracle@.backing, oracle@.log, delta@);
    }
    delta
}

/// The keys that `log` touches with a write or a rollback.
pub open spec fn touched(log: Seq<StorageLogQuery>) -> Set<StorageKey> {
    Set::new(|key: StorageKey| lookup(cells_of(log), key) is Some)
}

proof fn lemma_touched_finite(log: Seq<StorageLogQuery>)
    ensures
        touched(log).finite(),
        touched(log).len() <= log.len(),
    decreases log.len(),
{
    if log.len() == 0 {
        assert(touched(log) =~= Set::empty());
    } else {
        let init = log.drop_last();
        let entry = log.last();
        lemma_touched_finite(init);
        if entry.rw_flag {
            assert forall|key: StorageKey| touched(log).contains(key) == touched(init).insert(
                entry.key,
            ).contains(key) by {
                lemma_lookup_push(
                    cells_of(init),
                    StorageCell { key: entry.key, value: value_after(entry) },
                    key,
                );
            }
            assert(touched(log) =~= touched(init).insert(entry.key));
        }
    }
}

/// The committed delta has no more entries than the log has accesses.
pub proof fn lemma_delta_is_short(
    backing: Map<StorageKey, u64>,
    log: Seq<StorageLogQuery>,
    delta: Seq<StorageLogQuery>,
)
    requires
        is_committed_delta(backing, log, delta),
    ensures
        delta.len() <= log.len(),
{
    lemma_touched_finite(log);
    let keys = delta.map_values(|entry: StorageLogQuery| entry.key);
    keys.unique_seq_to_set();
    vstd::set_lib::lemma_len_subset(keys.to_set(), touched(log));
}

} // verus!
