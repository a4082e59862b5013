//! A slot that no instruction of a transaction writes keeps its value while
//! the transaction runs, whatever the transaction reverts.

use crate::bootloader::BootloaderTxView;
use crate::invariants::{lemma_publishing_extends, lemma_run_extends, lemma_step_extends};
use crate::state::{log_after_publishing, ExecutionStateView};
use crate::storage::{
    cells_of, lemma_log_push, lemma_lookup_push, log_after_revert, pending_of, rollback_entry,
    value_after, value_of, StorageCell, StorageKey, StorageLogQuery,
};
use crate::transaction::{known_code_key, FactoryDepView, Instruction};
use vstd::prelude::*;

verus! {

/// Whether `instruction` writes the slot `key`.
pub open spec fn writes_slot(instruction: Instruction, key: StorageKey) -> bool {
    instruction matches Instruction::Write { key: written, .. } && written == key
}

/// Whether no instruction of `program` writes the slot `key`.
pub open spec fn spares_slot(program: Seq<Instruction>, key: StorageKey) -> bool {
    forall|pc: int| 0 <= pc < program.len() ==> !writes_slot(#[trigger] program[pc], key)
}

/// Whether the state leaves `key` alone above `floor`: no write pending
/// above the first `floor` is to `key`, and no frame of the transaction
/// reaches below them.
pub open spec fn spares(state: ExecutionStateView, key: StorageKey, floor: nat) -> bool {
    let pending = pending_of(state.storage.log);
    &&& floor <= pending.len()
    &&& forall|j: int| floor <= j < pending.len() ==> (#[trigger] pending[j]).key != key
    &&& forall|i: int|
        1 <= i < state.callstack.len() ==> (#[trigger] state.callstack[i]).pending_start >= floor
}

/// There are no more pending writes than accesses.
pub proof fn lemma_pending_is_short(log: Seq<StorageLogQuery>)
    ensures
        pending_of(log).len() <= log.len(),
    decreases log.len(),
{
    if log.len() > 0 {
        lemma_pending_is_short(log.drop_last());
    }
}

/// Undoing pending writes to other slots leaves the value of `key`, and
/// leaves pending what lies below.
pub proof fn lemma_revert_spares(
    backing: Map<StorageKey, u64>,
    log: Seq<StorageLogQuery>,
    depth: int,
    tx_number: u64,
    key: StorageKey,
    floor: nat,
)
    requires
        floor <= depth,
        forall|j: int|
            floor <= j < pending_of(log).len() ==> (#[trigger] pending_of(log)[j]).key != key,
    ensures
        value_of(backing, log_after_revert(log, depth, tx_number), key) == value_of(
            backing,
            log,
            key,
        ),
        pending_of(log_after_revert(log, depth, tx_number)) == if pending_of(log).len() > depth {
            pending_of(log).take(depth)
        } else {
            pending_of(log)
        },
    decreases pending_of(log).len() - depth,
{
    let pending = pending_of(log);
    let after = log_after_revert(log, depth, tx_number);
    if pending.len() <= depth {
        assert(after =~= log);
    } else {
        lemma_revert_spares(backing, log, depth + 1, tx_number, key, floor);
        let before = log_after_revert(log, depth + 1, tx_number);
        let entry = rollback_entry(
            (log.len() + pending.len() - 1 - depth) as u64,
            tx_number,
            pending[depth],
        );
        assert(after =~= before.push(entry));
        lemma_log_push(before, entry);
        assert(pending.take(pending.len() as int) =~= pending);
        assert(pending_of(before) =~= pending.take(depth + 1));
        assert(pending.take(depth + 1).drop_last() =~= pending.take(depth));
        lemma_lookup_push(
            cells_of(before),
            StorageCell { key: entry.key, value: value_after(entry) },
            key,
        );
    }
}

/// An instruction that does not write `key` leaves its value, and leaves the
/// state sparing it.
pub proof fn lemma_step_spares(
    state: ExecutionStateView,
    instruction: Instruction,
    tx_number: u64,
    key: StorageKey,
    floor: nat,
)
    requires
        state.callstack.len() >= 2,
        spares(state, key, floor),
        !writes_slot(instruction, key),
        state.storage.log.len() <= usize::MAX,
    ensures
        spares(state.step(instruction, tx_number).state, key, floor),
        state.step(instruction, tx_number).state.callstack.len() >= 2,
        value_of(
            state.storage.backing,
            state.step(instruction, tx_number).state.storage.log,
            key,
        ) == value_of(state.storage.backing, state.storage.log, key),
{
    let log = state.storage.log;
    let pending = pending_of(log);
    let after = state.step(instruction, tx_number).state;
    lemma_pending_is_short(log);
    if after.storage.log != log {
        match instruction {
            Instruction::Revert { .. } => {
                assert(state.callstack[state.callstack.len() - 1].pending_start >= floor);
                lemma_revert_spares(
                    state.storage.backing,
                    log,
                    state.top().pending_start as int,
                    tx_number,
                    key,
                    floor,
                );
            },
            _ => {
                let entry = after.storage.log.last();
                assert(after.storage.log =~= log.push(entry));
                lemma_log_push(log, entry);
                if entry.rw_flag {
                    lemma_lookup_push(
                        cells_of(log),
                        StorageCell { key: entry.key, value: value_after(entry) },
                        key,
                    );
                }
            },
        }
    }
    let later = pending_of(after.storage.log);
    assert forall|j: int| floor <= j < later.len() implies (#[trigger] later[j]).key != key by {
        if j < pending.len() {
            assert(later[j] == pending[j]);
        }
    }
    assert forall|i: int| 1 <= i < after.callstack.len() implies (
    #[trigger] after.callstack[i]).pending_start >= floor by {
        if i < state.callstack.len() {
            assert(state.callstack[i].pending_start >= floor);
        }
    }
}

/// Instructions that do not write `key` leave its value, and leave the state
/// sparing it.
pub proof fn lemma_run_spares(
    state: ExecutionStateView,
    program: Seq<Instruction>,
    pc: int,
    tx_number: u64,
    refunded: nat,
    key: StorageKey,
    floor: nat,
)
    requires
        state.callstack.len() >= 2,
        spares(state, key, floor),
        spares_slot(program, key),
        state.run(program, pc, tx_number, refunded).state.storage.log.len() <= usize::MAX,
    ensures
        spares(state.run(program, pc, tx_number, refunded).state, key, floor),
        state.run(program, pc, tx_number, refunded).state.callstack.len() >= 2,
        value_of(
            state.storage.backing,
            state.run(program, pc, tx_number, refunded).state.storage.log,
            key,
        ) == value_of(state.storage.backing, state.storage.log, key),
    decreases program.len() - pc,
{
    if 0 <= pc < program.len() {
        let stepped = state.step(program[pc], tx_number);
        lemma_run_extends(state, program, pc, tx_number, refunded);
        lemma_step_spares(state, program[pc], tx_number, key, floor);
        lemma_step_extends(state, program[pc], tx_number);
        if stepped.outcome is None {
            lemma_run_spares(
                stepped.state,
                program,
                pc + 1,
                tx_number,
                refunded + stepped.refund as nat,
                key,
                floor,
            );
        }
    }
}

/// Publishing leaves a bytecode unknown if no reference to it comes with a
/// compressed form and compression is enforced.
pub proof fn lemma_publishing_spares(
    backing: Map<StorageKey, u64>,
    log: Seq<StorageLogQuery>,
    deps: Seq<FactoryDepView>,
    tx_number: u64,
    hash: u64,
)
    requires
        value_of(backing, log, known_code_key(hash)) == 0,
        forall|j: int|
            0 <= j < deps.len() && (#[trigger] deps[j]).hash == hash ==> deps[j].compressed
                is None,
    ensures
        value_of(
            backing,
            log_after_publishing(backing, log, deps, true, tx_number),
            known_code_key(hash),
        ) == 0,
    decreases deps.len(),
{
    if deps.len() > 0 {
        let init = deps.drop_last();
        assert forall|j: int| 0 <= j < init.len() && (#[trigger] init[j]).hash == hash implies init[j].compressed is None by {
            assert(init[j] == deps[j]);
        }
        lemma_publishing_spares(backing, log, init, tx_number, hash);
        let before = log_after_publishing(backing, log, init, true, tx_number);
        let after = log_after_publishing(backing, log, deps, true, tx_number);
        if after != before {
            let entry = after.last();
            assert(after =~= before.push(entry));
            lemma_log_push(before, entry);
            assert(deps[deps.len() - 1].hash != hash);
            lemma_lookup_push(
                cells_of(before),
                StorageCell { key: entry.key, value: value_after(entry) },
                known_code_key(hash),
            );
        }
    }
}

/// A transaction for which compression is enforced, which refers to a
/// bytecode that is not known without its compressed form, and which does
/// not itself write the slot that makes the bytecode known, leaves the
/// bytecode unknown.
pub proof fn lemma_execution_spares_bytecode(
    state: ExecutionStateView,
    entry: BootloaderTxView,
    tx_number: u64,
    base_fee: u64,
    max_words: u64,
    hash: u64,
)
    requires
        state.callstack.len() == 1,
        entry.enforce_compression,
        value_of(state.storage.backing, state.storage.log, known_code_key(hash)) == 0,
        forall|j: int|
            0 <= j < entry.tx.factory_deps.len() && (#[trigger] entry.tx.factory_deps[j]).hash
                == hash ==> entry.tx.factory_deps[j].compressed is None,
        spares_slot(entry.tx.program, known_code_key(hash)),
        state.execute_tx(entry, tx_number, base_fee, max_words).state.storage.log.len()
            <= usize::MAX,
    ensures
        value_of(
            state.storage.backing,
            state.execute_tx(entry, tx_number, base_fee, max_words).state.storage.log,
            known_code_key(hash),
        ) == 0,
{
    let key = known_code_key(hash);
    let backing = state.storage.backing;
    if state.validate(entry.tx, base_fee, max_words) is None {
        let started = state.begin_tx(entry.tx);
        let ran = started.run(entry.tx.program, 0, tx_number, 0);
        let finished = ran.state.finish_tx(ran.outcome, tx_number);
        let last = state.execute_tx(entry, tx_number, base_fee, max_words).state;
        let floor = pending_of(state.storage.log).len();
        lemma_run_extends(started, entry.tx.program, 0, tx_number, 0);
        assert(finished.storage.log.len() >= ran.state.storage.log.len());
        if !(ran.outcome is Halted) {
            lemma_publishing_extends(
                backing,
                finished.storage.log,
                entry.tx.factory_deps,
                true,
                tx_number,
            );
        }
        lemma_pending_is_short(state.storage.log);
        assert(spares(started, key, floor));
        lemma_run_spares(started, entry.tx.program, 0, tx_number, 0, key, floor);
        assert(ran.state.callstack[1].pending_start >= floor);
        if !(ran.outcome is Success) {
            lemma_revert_spares(
                backing,
                ran.state.storage.log,
                ran.state.callstack[1].pending_start as int,
                tx_number,
                key,
                floor,
            );
        }
        if !(ran.outcome is Halted) {
            lemma_publishing_spares(
                backing,
                finished.storage.log,
                entry.tx.factory_deps,
                tx_number,
                hash,
            );
        }
    }
}

} // verus!
