//! The storage oracle: a cache layered over the persistent key-value store
//! that records every access in an append-only log.
//!
//! Everything the oracle holds besides the backing store is a function of
//! that log: the cached cells, the stack of writes that can still be undone
//! and the refunds granted. The log is therefore the oracle's whole model.

use std::rc::Rc;
use vstd::prelude::*;

verus! {

/// Refund granted for a write to a slot that was already written in the batch.
pub const REPEATED_WRITE_REFUND: u32 = 20;

/// A storage slot: the account it belongs to and the slot inside the account.
#[derive(Clone, Copy, Debug, PartialEq, Eq, Structural)]
pub struct StorageKey {
    pub address: u64,
    pub slot: u64,
}

/// One recorded storage access.
///
/// A read has `rw_flag == false`. A write has `rw_flag == true`; the record
/// that undoes a write when its call frame is reverted repeats the write's
/// values and has `rollback == true`.
#[derive(Clone, Copy, Debug, PartialEq, Eq, Structural)]
pub struct StorageLogQuery {
    pub timestamp: u64,
    pub tx_number: u64,
    pub key: StorageKey,
    pub read_value: u64,
    pub written_value: u64,
    pub rw_flag: bool,
    pub rollback: bool,
}

/// A slot together with a value.
#[derive(Clone, Copy, Debug, PartialEq, Eq, Structural)]
pub struct StorageCell {
    pub key: StorageKey,
    pub value: u64,
}

/// A write that has not been undone: what a later rollback has to repeat.
#[derive(Clone, Copy, Debug, PartialEq, Eq, Structural)]
pub struct PendingWrite {
    pub key: StorageKey,
    pub read_value: u64,
    pub written_value: u64,
}

/// The value of the latest cell for `key`, if there is one.
pub open spec fn lookup(cells: Seq<StorageCell>, key: StorageKey) -> Option<u64>
    decreases cells.len(),
{
    if cells.len() == 0 {
        None
    } else if cells.last().key == key {
        Some(cells.last().value)
    } else {
        lookup(cells.drop_last(), key)
    }
}

pub proof fn lemma_lookup_push(cells: Seq<StorageCell>, cell: StorageCell, key: StorageKey)
    ensures
        lookup(cells.push(cell), key) == if cell.key == key {
            Some(cell.value)
        } else {
            lookup(cells, key)
        },
{
    assert(cells.push(cell).drop_last() =~= cells);
}

/// Finds the latest cell for `key`.
pub fn find_latest(cells: &Vec<StorageCell>, key: StorageKey) -> (found: Option<u64>)
    ensures
        found == lookup(cells@, key),
{
    let mut i: usize = cells.len();
    proof {
        assert(cells@.take(i as int) =~= cells@);
    }
    while i > 0
        invariant
            i <= cells.len(),
            lookup(cells@, key) == lookup(cells@.take(i as int), key),
        decreases i,
    {
        let cell = cells[i - 1];
        proof {
            assert(cells@.take(i as int).drop_last() =~= cells@.take(i - 1));
        }
        if cell.key == key {
            return Some(cell.value);
        }
        i = i - 1;
    }
    None
}

/// The persistent key-value store, as the engine sees it: every slot has a
/// value, zero until it is set.
pub struct InMemoryStorage {
    cells: Vec<StorageCell>,
}

impl View for InMemoryStorage {
    type V = Map<StorageKey, u64>;

    closed spec fn view(&self) -> Map<StorageKey, u64> {
        Map::total(
            |key: StorageKey|
                match lookup(self.cells@, key) {
                    Some(value) => value,
                    None => 0u64,
                },
        )
    }
}

impl InMemoryStorage {
    /// A store in which every slot is zero.
    pub fn new() -> (storage: Self)
        ensures
            forall|key: StorageKey| #[trigger] storage@[key] == 0,
            storage@.dom() == Set::<StorageKey>::full(),
    {
        InMemoryStorage { cells: Vec::new() }
    }

    /// Sets one slot and leaves the others as they are.
    pub fn set_value(&mut self, key: StorageKey, value: u64)
        ensures
            final(self)@ == old(self)@.insert(key, value),
    {
        self.cells.push(StorageCell { key, value });
        proof {
            assert forall|k: StorageKey| #[trigger] final(self)@[k] == old(self)@.insert(key, value)[k] by {
                lemma_lookup_push(old(self).cells@, StorageCell { key, value }, k);
            }
        }
    }

    /// Reads one slot.
    pub fn read_value(&self, key: StorageKey) -> (value: u64)
        ensures
            value == self@[key],
    {
        match find_latest(&self.cells, key) {
            Some(value) => value,
            None => 0,
        }
    }
}

/// The cells that the writes and rollbacks of `log` leave, oldest first.
pub open spec fn cells_of(log: Seq<StorageLogQuery>) -> Seq<StorageCell>
    decreases log.len(),
{
    if log.len() == 0 {
        Seq::empty()
    } else {
        let entry = log.last();
        let rest = cells_of(log.drop_last());
        if entry.rw_flag {
            rest.push(StorageCell { key: entry.key, value: value_after(entry) })
        } else {
            rest
        }
    }
}

/// The value that a slot holds once `entry` has been applied to it.
pub open spec fn value_after(entry: StorageLogQuery) -> u64 {
    if !entry.rw_flag || entry.rollback {
        entry.read_value
    } else {
        entry.written_value
    }
}

pub open spec fn is_write(entry: StorageLogQuery) -> bool {
    entry.rw_flag && !entry.rollback
}

pub open spec fn is_rollback(entry: StorageLogQuery) -> bool {
    entry.rw_flag && entry.rollback
}

pub open spec fn pending_write(entry: StorageLogQuery) -> PendingWrite {
    PendingWrite {
        key: entry.key,
        read_value: entry.read_value,
        written_value: entry.written_value,
    }
}

/// The writes of `log` that no rollback has undone, oldest first.
pub open spec fn pending_of(log: Seq<StorageLogQuery>) -> Seq<PendingWrite>
    decreases log.len(),
{
    if log.len() == 0 {
        Seq::empty()
    } else {
        let entry = log.last();
        let rest = pending_of(log.drop_last());
        if is_write(entry) {
            rest.push(pending_write(entry))
        } else if is_rollback(entry) && rest.len() > 0 {
            rest.drop_last()
        } else {
            rest
        }
    }
}

/// The value of `key` after the accesses of `log`, over the backing store.
pub open spec fn value_of(
    backing: Map<StorageKey, u64>,
    log: Seq<StorageLogQuery>,
    key: StorageKey,
) -> u64 {
    match lookup(cells_of(log), key) {
        Some(value) => value,
        None => backing[key],
    }
}

/// The refund for a write to `key` after the accesses of `log`.
pub open spec fn refund_for(log: Seq<StorageLogQuery>, key: StorageKey) -> u32 {
    if lookup(cells_of(log), key) is Some {
        REPEATED_WRITE_REFUND
    } else {
        0
    }
}

/// The refunds granted to the writes of `log`, one per write, oldest first.
pub open spec fn refunds_of(log: Seq<StorageLogQuery>) -> Seq<u32>
    decreases log.len(),
{
    if log.len() == 0 {
        Seq::empty()
    } else {
        let entry = log.last();
        let rest = refunds_of(log.drop_last());
        if is_write(entry) {
            rest.push(refund_for(log.drop_last(), entry.key))
        } else {
            rest
        }
    }
}

/// Whether `entry` may follow `log`: it carries the next sequence number, a
/// read or a write records the slot's value before it, and a rollback
/// repeats the latest write that is still pending.
pub open spec fn entry_follows(
    backing: Map<StorageKey, u64>,
    log: Seq<StorageLogQuery>,
    entry: StorageLogQuery,
) -> bool {
    &&& entry.timestamp == log.len() as u64
    &&& if is_rollback(entry) {
        pending_of(log).len() > 0 && pending_of(log).last() == pending_write(entry)
    } else {
        &&& entry.read_value == value_of(backing, log, entry.key)
        &&& !entry.rw_flag ==> entry.written_value == entry.read_value && !entry.rollback
    }
}

/// Whether `log` is a faithful record of accesses over `backing`.
pub open spec fn valid_log(backing: Map<StorageKey, u64>, log: Seq<StorageLogQuery>) -> bool
    decreases log.len(),
{
    log.len() == 0 || (valid_log(backing, log.drop_last()) && entry_follows(
        backing,
        log.drop_last(),
        log.last(),
    ))
}

pub open spec fn read_entry(
    backing: Map<StorageKey, u64>,
    log: Seq<StorageLogQuery>,
    tx_number: u64,
    key: StorageKey,
) -> StorageLogQuery {
    StorageLogQuery {
        timestamp: log.len() as u64,
        tx_number,
        key,
        read_value: value_of(backing, log, key),
        written_value: value_of(backing, log, key),
        rw_flag: false,
        rollback: false,
    }
}

pub open spec fn write_entry(
    backing: Map<StorageKey, u64>,
    log: Seq<StorageLogQuery>,
    tx_number: u64,
    key: StorageKey,
    value: u64,
) -> StorageLogQuery {
    StorageLogQuery {
        timestamp: log.len() as u64,
        tx_number,
        key,
        read_value: value_of(backing, log, key),
        written_value: value,
        rw_flag: true,
        rollback: false,
    }
}

pub open spec fn rollback_entry(timestamp: u64, tx_number: u64, write: PendingWrite)
    -> StorageLogQuery {
    StorageLogQuery {
        timestamp,
        tx_number,
        key: write.key,
        read_value: write.read_value,
        written_value: write.written_value,
        rw_flag: true,
        rollback: true,
    }
}

/// The log after the pending writes above `depth` have been undone, latest
/// first.
pub open spec fn log_after_revert(log: Seq<StorageLogQuery>, depth: int, tx_number: u64) -> Seq<
    StorageLogQuery,
> {
    let pending = pending_of(log);
    log + Seq::new(
        if pending.len() > depth {
            (pending.len() - depth) as nat
        } else {
            0
        },
        |i: int|
            rollback_entry((log.len() + i) as u64, tx_number, pending[pending.len() - 1 - i]),
    )
}

pub proof fn lemma_log_push(log: Seq<StorageLogQuery>, entry: StorageLogQuery)
    ensures
        cells_of(log.push(entry)) == if entry.rw_flag {
            cells_of(log).push(StorageCell { key: entry.key, value: value_after(entry) })
        } else {
            cells_of(log)
        },
        pending_of(log.push(entry)) == if is_write(entry) {
            pending_of(log).push(pending_write(entry))
        } else if is_rollback(entry) && pending_of(log).len() > 0 {
            pending_of(log).drop_last()
        } else {
            pending_of(log)
        },
        refunds_of(log.push(entry)) == if is_write(entry) {
            refunds_of(log).push(refund_for(log, entry.key))
        } else {
            refunds_of(log)
        },
        forall|backing: Map<StorageKey, u64>| #[trigger]
            valid_log(backing, log.push(entry)) == (valid_log(backing, log) && entry_follows(
                backing,
                log,
                entry,
            )),
{
    assert(log.push(entry).drop_last() =~= log);
}

/// A prefix of a faithful log is faithful.
pub proof fn lemma_valid_prefix(backing: Map<StorageKey, u64>, log: Seq<StorageLogQuery>, len: int)
    requires
        valid_log(backing, log),
        0 <= len <= log.len(),
    ensures
        valid_log(backing, log.take(len)),
    decreases log.len(),
{
    if len == log.len() {
        assert(log.take(len) =~= log);
    } else {
        lemma_valid_prefix(backing, log.drop_last(), len);
        assert(log.drop_last().take(len) =~= log.take(len));
    }
}

/// What the oracle is, to its users: the backing store and the access log.
pub struct StorageOracleView {
    pub backing: Map<StorageKey, u64>,
    pub log: Seq<StorageLogQuery>,
}

impl StorageOracleView {
    pub open spec fn value_of(self, key: StorageKey) -> u64 {
        value_of(self.backing, self.log, key)
    }
}

/// The cache over the persistent store. It owns every change made during a
/// batch; the store itself is shared with the caller and only read.
pub struct StorageOracle {
    backing: Rc<InMemoryStorage>,
    cache: Vec<StorageCell>,
    log: Vec<StorageLogQuery>,
    pending: Vec<PendingWrite>,
    refunds: Vec<u32>,
}

impl View for StorageOracle {
    type V = StorageOracleView;

    closed spec fn view(&self) -> StorageOracleView {
        StorageOracleView { backing: self.backing@, log: self.log@ }
    }
}

impl StorageOracle {
    /// The oracle's invariant: the log is faithful, and the cache, the
    /// pending writes and the refunds are what the log says they are.
    pub closed spec fn wf(&self) -> bool {
        &&& valid_log(self.backing@, self.log@)
        &&& self.cache@ == cells_of(self.log@)
        &&& self.pending@ == pending_of(self.log@)
        &&& self.refunds@ == refunds_of(self.log@)
    }

    pub proof fn lemma_wf_valid(&self)
        requires
            self.wf(),
        ensures
            valid_log(self@.backing, self@.log),
    {
    }

    /// An oracle over `backing` with an empty log.
    pub fn new(backing: Rc<InMemoryStorage>) -> (oracle: Self)
        ensures
            oracle.wf(),
            oracle@.backing == backing@,
            oracle@.log == Seq::<StorageLogQuery>::empty(),
    {
        StorageOracle {
            backing,
            cache: Vec::new(),
            log: Vec::new(),
            pending: Vec::new(),
            refunds: Vec::new(),
        }
    }

    /// The current value of a slot; nothing is recorded.
    pub fn peek(&self, key: StorageKey) -> (value: u64)
        requires
            self.wf(),
        ensures
            value == self@.value_of(key),
    {
        match find_latest(&self.cache, key) {
            Some(value) => value,
            None => self.backing.read_value(key),
        }
    }

    /// Reads a slot and records the read.
    pub fn read(&mut self, key: StorageKey, tx_number: u64) -> (value: u64)
        requires
            old(self).wf(),
        ensures
            final(self).wf(),
            final(self)@.backing == old(self)@.backing,
            final(self)@.log == old(self)@.log.push(
                read_entry(old(self)@.backing, old(self)@.log, tx_number, key),
            ),
            value == old(self)@.value_of(key),
    {
        let value = self.peek(key);
        let entry = StorageLogQuery {
            timestamp: self.log.len() as u64,
            tx_number,
            key,
            read_value: value,
            written_value: value,
            rw_flag: false,
            rollback: false,
        };
        proof {
            lemma_log_push(self.log@, entry);
        }
        self.log.push(entry);
        value
    }

    /// Writes a slot, records the write and returns the refund granted.
    pub fn write(&mut self, key: StorageKey, value: u64, tx_number: u64) -> (refund: u32)
        requires
            old(self).wf(),
        ensures
            final(self).wf(),
            final(self)@.backing == old(self)@.backing,
            final(self)@.log == old(self)@.log.push(
                write_entry(old(self)@.backing, old(self)@.log, tx_number, key, value),
            ),
            refund == refund_for(old(self)@.log, key),
    {
        let cached = find_latest(&self.cache, key);
        let (read_value, refund) = match cached {
            Some(current) => (current, REPEATED_WRITE_REFUND),
            None => (self.backing.read_value(key), 0u32),
        };
        let entry = StorageLogQuery {
            timestamp: self.log.len() as u64,
            tx_number,
            key,
            read_value,
            written_value: value,
            rw_flag: true,
            rollback: false,
        };
        proof {
            lemma_log_push(self.log@, entry);
        }
        self.log.push(entry);
        self.cache.push(StorageCell { key, value });
        self.pending.push(PendingWrite { key, read_value, written_value: value });
        self.refunds.push(refund);
        refund
    }

    /// How many writes can still be undone.
    pub fn pending_depth(&self) -> (depth: usize)
        requires
            self.wf(),
        ensures
            depth == pending_of(self@.log).len(),
    {
        self.pending.len()
    }

    /// How many accesses have been recorded.
    pub fn log_len(&self) -> (len: usize)
        ensures
            len == self@.log.len(),
    {
        self.log.len()
    }

    /// Undoes the pending writes above `depth`, the latest first, recording
    /// one rollback for each.
    pub fn revert_to_depth(&mut self, depth: usize, tx_number: u64)
        requires
            old(self).wf(),
        ensures
            final(self).wf(),
            final(self)@.backing == old(self)@.backing,
            final(self)@.log == log_after_revert(old(self)@.log, depth as int, tx_number),
            pending_of(final(self)@.log) == if pending_of(old(self)@.log).len() > depth {
                pending_of(old(self)@.log).take(depth as int)
            } else {
                pending_of(old(self)@.log)
            },
    {
        let ghost log0 = self.log@;
        let ghost pending0 = self.pending@;
        let mut undone: usize = 0;
        while self.pending.len() > depth
            invariant
                self.wf(),
                self.backing == old(self).backing,
                pending0 == pending_of(log0),
                log0 == old(self).log@,
                undone + self.pending@.len() == pending0.len(),
                undone > 0 ==> self.pending@.len() >= depth,
                self.pending@ == pending0.take(self.pending@.len() as int),
                self.log@ == log0 + Seq::new(
                    undone as nat,
                    |i: int|
                        rollback_entry(
                            (log0.len() + i) as u64,
                            tx_number,
                            pending0[pending0.len() - 1 - i],
                        ),
                ),
            decreases self.pending.len(),
        {
            let ghost before = self.log@;
            let write = self.pending.pop().unwrap();
            let entry = StorageLogQuery {
                timestamp: self.log.len() as u64,
                tx_number,
                key: write.key,
                read_value: write.read_value,
                written_value: write.written_value,
                rw_flag: true,
                rollback: true,
            };
            proof {
                lemma_log_push(before, entry);
            }
            self.log.push(entry);
            self.cache.push(StorageCell { key: write.key, value: write.read_value });
            undone = undone + 1;
        }
    }

    /// Forgets every access after the first `len`; the slots, the pending
    /// writes and the refunds are again what they were when the log had that
    /// length.
    pub fn truncate_log(&mut self, len: usize)
        requires
            old(self).wf(),
        ensures
            final(self).wf(),
            final(self)@.backing == old(self)@.backing,
            final(self)@.log == if len <= old(self)@.log.len() {
                old(self)@.log.take(len as int)
            } else {
                old(self)@.log
            },
    {
        while self.log.len() > len
            invariant
                self.wf(),
                self.backing == old(self).backing,
                self.log@.len() <= old(self).log@.len(),
                self.log@.len() >= len || self.log@.len() == old(self).log@.len(),
                self.log@ == old(self).log@.take(self.log@.len() as int),
            decreases self.log.len(),
        {
            let ghost before = self.log@;
            let entry = self.log.pop().unwrap();
            if entry.rw_flag {
                self.cache.pop();
                if entry.rollback {
                    self.pending.push(
                        PendingWrite {
                            key: entry.key,
                            read_value: entry.read_value,
                            written_value: entry.written_value,
                        },
                    );
                    proof {
                        let rest = pending_of(before.drop_last());
                        assert(rest.drop_last().push(rest.last()) =~= rest);
                    }
                } else {
                    self.pending.pop();
                    self.refunds.pop();
                }
            }
            proof {
                let rest_cells = cells_of(before.drop_last());
                if entry.rw_flag {
                    assert(rest_cells.push(
                        StorageCell { key: entry.key, value: value_after(entry) },
                    ).drop_last() =~= rest_cells);
                    if !entry.rollback {
                        let rest_pending = pending_of(before.drop_last());
                        assert(rest_pending.push(pending_write(entry)).drop_last()
                            =~= rest_pending);
                        let rest_refunds = refunds_of(before.drop_last());
                        assert(rest_refunds.push(
                            refund_for(before.drop_last(), entry.key),
                        ).drop_last() =~= rest_refunds);
                    }
                }
            }
        }
    }

    /// A copy of the accesses recorded from position `from` on.
    pub fn log_since(&self, from: usize) -> (entries: Vec<StorageLogQuery>)
        ensures
            entries@ == if from <= self@.log.len() {
                self@.log.skip(from as int)
            } else {
                Seq::<StorageLogQuery>::empty()
            },
    {
        let mut entries: Vec<StorageLogQuery> = Vec::new();
        if from > self.log.len() {
            return entries;
        }
        let mut i: usize = from;
        while i < self.log.len()
            invariant
                from <= i <= self.log.len(),
                entries@ == self.log@.subrange(from as int, i as int),
            decreases self.log.len() - i,
        {
            entries.push(self.log[i]);
            i = i + 1;
        }
        entries
    }

    /// A copy of the refunds granted so far, one per write.
    pub fn returned_refunds(&self) -> (refunds: Vec<u32>)
        requires
            self.wf(),
        ensures
            refunds@ == refunds_of(self@.log),
    {
        self.refunds.clone()
    }
}

} // verus!
