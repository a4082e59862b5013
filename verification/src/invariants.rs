//! The invariants of the engine's model hold whatever is done: every
//! operation takes a valid state to a valid state.

use crate::bootloader::{lemma_pending_in_range, BootloaderTxView};
use crate::laws::{apply, apply_all, keeps_depth, Operation};
use crate::state::{log_after_publishing, ExecutionStateView};
use crate::storage::{
    lemma_log_push, lemma_valid_prefix, log_after_revert, pending_of, rollback_entry, valid_log,
    StorageKey, StorageLogQuery,
};
use crate::tracer::TraceEvent;
use crate::transaction::{FactoryDepView, Instruction, VmExecutionMode};
use crate::vm::VmView;
use vstd::prelude::*;

verus! {

/// The log after the latest `count` pending writes have been undone.
spec fn undone(log: Seq<StorageLogQuery>, tx_number: u64, count: nat) -> Seq<StorageLogQuery> {
    let pending = pending_of(log);
    log + Seq::new(
        count,
        |i: int|
            rollback_entry((log.len() + i) as u64, tx_number, pending[pending.len() - 1 - i]),
    )
}

proof fn lemma_undone(
    backing: Map<StorageKey, u64>,
    log: Seq<StorageLogQuery>,
    tx_number: u64,
    count: nat,
)
    requires
        valid_log(backing, log),
        count <= pending_of(log).len(),
    ensures
        valid_log(backing, undone(log, tx_number, count)),
        pending_of(undone(log, tx_number, count)) == pending_of(log).take(
            pending_of(log).len() - count,
        ),
    decreases count,
{
    let pending = pending_of(log);
    if count > 0 {
        let before = undone(log, tx_number, (count - 1) as nat);
        lemma_undone(backing, log, tx_number, (count - 1) as nat);
        let entry = rollback_entry(
            (log.len() + count - 1) as u64,
            tx_number,
            pending[pending.len() - count],
        );
        assert(undone(log, tx_number, count) =~= before.push(entry));
        lemma_log_push(before, entry);
    }
}

/// Undoing pending writes keeps a faithful log faithful, and takes nothing
/// from it.
pub proof fn lemma_revert_keeps_valid(
    backing: Map<StorageKey, u64>,
    log: Seq<StorageLogQuery>,
    depth: int,
    tx_number: u64,
)
    requires
        valid_log(backing, log),
        0 <= depth,
    ensures
        valid_log(backing, log_after_revert(log, depth, tx_number)),
        log.len() <= log_after_revert(log, depth, tx_number).len(),
{
    let pending = pending_of(log);
    let count: nat = if pending.len() > depth {
        (pending.len() - depth) as nat
    } else {
        0
    };
    lemma_undone(backing, log, tx_number, count);
}

/// Publishing bytecodes keeps a faithful log faithful, and takes nothing
/// from it.
pub proof fn lemma_publishing_keeps_valid(
    backing: Map<StorageKey, u64>,
    log: Seq<StorageLogQuery>,
    deps: Seq<FactoryDepView>,
    enforce_compression: bool,
    tx_number: u64,
)
    requires
        valid_log(backing, log),
    ensures
        valid_log(
            backing,
            log_after_publishing(backing, log, deps, enforce_compression, tx_number),
        ),
        log.len() <= log_after_publishing(
            backing,
            log,
            deps,
            enforce_compression,
            tx_number,
        ).len(),
    decreases deps.len(),
{
    if deps.len() > 0 {
        lemma_publishing_keeps_valid(
            backing,
            log,
            deps.drop_last(),
            enforce_compression,
            tx_number,
        );
        let before = log_after_publishing(
            backing,
            log,
            deps.drop_last(),
            enforce_compression,
            tx_number,
        );
        let after = log_after_publishing(backing, log, deps, enforce_compression, tx_number);
        if after != before {
            lemma_log_push(before, after.last());
        }
    }
}

/// One instruction takes a valid state in which a transaction runs to such a
/// state, leaves the batch's frame alone, and takes nothing from the log or
/// the sink.
pub proof fn lemma_step_keeps_valid(
    state: ExecutionStateView,
    instruction: Instruction,
    tx_number: u64,
)
    requires
        state.wf(),
        state.callstack.len() >= 2,
    ensures
        state.step(instruction, tx_number).state.wf(),
        state.step(instruction, tx_number).state.callstack.len() >= 2,
        state.grows_to(state.step(instruction, tx_number).state),
        state.step(instruction, tx_number).state.callstack[0] == state.callstack[0],
{
    let after = state.step(instruction, tx_number).state;
    let log = state.storage.log;
    if after.storage.log != log {
        match instruction {
            Instruction::Revert { .. } => {
                lemma_revert_keeps_valid(
                    state.storage.backing,
                    log,
                    state.top().pending_start as int,
                    tx_number,
                );
            },
            _ => {
                lemma_log_push(log, after.storage.log.last());
            },
        }
    }
}

/// The instructions of a transaction take a valid state to a valid state.
pub proof fn lemma_run_keeps_valid(
    state: ExecutionStateView,
    program: Seq<Instruction>,
    pc: int,
    tx_number: u64,
    refunded: nat,
)
    requires
        state.wf(),
        state.callstack.len() >= 2,
    ensures
        state.run(program, pc, tx_number, refunded).state.wf(),
        state.run(program, pc, tx_number, refunded).state.callstack.len() >= 2,
        state.grows_to(state.run(program, pc, tx_number, refunded).state),
        state.run(program, pc, tx_number, refunded).state.callstack[0] == state.callstack[0],
    decreases program.len() - pc,
{
    if 0 <= pc < program.len() {
        let stepped = state.step(program[pc], tx_number);
        lemma_step_keeps_valid(state, program[pc], tx_number);
        if stepped.outcome is None {
            lemma_run_keeps_valid(
                stepped.state,
                program,
                pc + 1,
                tx_number,
                refunded + stepped.refund as nat,
            );
        }
    }
}

/// The execution of a transaction takes a valid state between transactions
/// to such a state, and takes nothing from the log or the sink.
pub proof fn lemma_execution_keeps_valid(
    state: ExecutionStateView,
    entry: BootloaderTxView,
    tx_number: u64,
    base_fee: u64,
    max_words: u64,
)
    requires
        state.wf(),
        state.callstack.len() == 1,
    ensures
        state.execute_tx(entry, tx_number, base_fee, max_words).state.wf(),
        state.execute_tx(entry, tx_number, base_fee, max_words).state.callstack.len() == 1,
        state.grows_to(state.execute_tx(entry, tx_number, base_fee, max_words).state),
{
    if state.validate(entry.tx, base_fee, max_words) is None {
        let started = state.begin_tx(entry.tx);
        assert(started.wf());
        lemma_run_keeps_valid(started, entry.tx.program, 0, tx_number, 0);
        let ran = started.run(entry.tx.program, 0, tx_number, 0);
        let finished = ran.state.finish_tx(ran.outcome, tx_number);
        if !(ran.outcome is Success) {
            lemma_revert_keeps_valid(
                ran.state.storage.backing,
                ran.state.storage.log,
                ran.state.callstack[1].pending_start as int,
                tx_number,
            );
        }
        assert(finished.wf());
        lemma_publishing_keeps_valid(
            finished.storage.backing,
            finished.storage.log,
            entry.tx.factory_deps,
            entry.enforce_compression,
            tx_number,
        );
    }
}

/// The execution of the pending transaction takes a valid instance to a
/// valid instance.
pub proof fn lemma_after_execution_keeps_valid(vm: VmView, index: int)
    requires
        vm.wf(),
        vm.bootloader.pending() == Some(index),
    ensures
        vm.after_execution(index).0.wf(),
        vm.after_execution(index).0.bootloader.next > vm.bootloader.next,
        vm.after_execution(index).0.bootloader.items == vm.bootloader.items,
{
    lemma_pending_in_range(vm.bootloader.items, vm.bootloader.next as int);
    lemma_execution_keeps_valid(
        vm.state,
        vm.bootloader.items[index]->Tx_0,
        vm.bootloader.executed as u64,
        vm.batch_env.base_fee,
        vm.system_env.max_encoded_tx_words,
    );
    assert(vm.after_execution(index).0.wf());
}

proof fn lemma_batch_keeps_valid(vm: VmView, refunded: nat, trace: Seq<TraceEvent>)
    requires
        vm.wf(),
    ensures
        vm.inspect_batch(refunded, trace).vm.wf(),
    decreases vm.bootloader.items.len() - vm.bootloader.next,
{
    match vm.bootloader.pending() {
        Some(index) => {
            lemma_after_execution_keeps_valid(vm, index);
            lemma_pending_in_range(vm.bootloader.items, vm.bootloader.next as int);
            let (next, report) = vm.after_execution(index);
            if !(report.outcome is Halted) {
                lemma_batch_keeps_valid(
                    next,
                    refunded + report.gas_refunded as nat,
                    trace + vm.execution_trace(index),
                );
            }
        },
        None => {},
    }
}

/// A run of the interpreter takes a valid instance to a valid instance.
pub proof fn lemma_inspect_keeps_valid(vm: VmView, mode: VmExecutionMode)
    requires
        vm.wf(),
    ensures
        vm.inspect(mode).vm.wf(),
{
    match mode {
        VmExecutionMode::OneTx => {
            match vm.bootloader.pending() {
                Some(index) => {
                    lemma_after_execution_keeps_valid(vm, index);
                },
                None => {},
            }
        },
        VmExecutionMode::Batch => {
            lemma_batch_keeps_valid(vm, 0, Seq::empty());
        },
    }
}

/// Every operation takes a valid instance to a valid instance. A rollback
/// needs a snapshot to go back to.
pub proof fn lemma_operation_keeps_valid(vm: VmView, operation: Operation)
    requires
        vm.wf(),
        operation is Rollback ==> vm.snapshots.len() > 0,
    ensures
        apply(vm, operation).wf(),
{
    match operation {
        Operation::Inspect { mode } => {
            lemma_inspect_keeps_valid(vm, mode);
        },
        Operation::Rollback => {
            let top = vm.snapshots[vm.snapshots.len() - 1];
            lemma_valid_prefix(
                vm.state.storage.backing,
                vm.state.storage.log,
                top.state.storage_log_len as int,
            );
        },
        _ => {},
    }
    assert(apply(vm, operation).wf());
}

/// Operations that never take the last snapshot off the stack take a valid
/// instance to a valid instance.
pub proof fn lemma_operations_keep_valid(vm: VmView, operations: Seq<Operation>, depth: nat)
    requires
        vm.wf(),
        keeps_depth(vm, operations, depth),
    ensures
        apply_all(vm, operations).wf(),
    decreases operations.len(),
{
    if operations.len() > 0 {
        let init = operations.drop_last();
        assert forall|count: int| 0 <= count <= init.len() implies (#[trigger] apply_all(
            vm,
            init.take(count),
        )).snapshots.len() > depth by {
            assert(init.take(count) =~= operations.take(count));
        }
        lemma_operations_keep_valid(vm, init, depth);
        lemma_operation_keeps_valid(apply_all(vm, init), operations.last());
    }
}

/// Whether `later` is `log` with accesses added behind it.
pub open spec fn log_extends(log: Seq<StorageLogQuery>, later: Seq<StorageLogQuery>) -> bool {
    log.len() <= later.len() && later.take(log.len() as int) == log
}

/// A log that extends one that extends another extends that other.
pub proof fn lemma_extends_in_turn(
    log: Seq<StorageLogQuery>,
    between: Seq<StorageLogQuery>,
    later: Seq<StorageLogQuery>,
)
    requires
        log_extends(log, between),
        log_extends(between, later),
    ensures
        log_extends(log, later),
{
    assert(later.take(log.len() as int) =~= later.take(between.len() as int).take(
        log.len() as int,
    ));
}

/// One instruction adds to the log and takes nothing from it.
pub proof fn lemma_step_extends(state: ExecutionStateView, instruction: Instruction, tx_number: u64)
    ensures
        log_extends(state.storage.log, state.step(instruction, tx_number).state.storage.log),
        state.step(instruction, tx_number).state.storage.backing == state.storage.backing,
{
    let log = state.storage.log;
    let after = state.step(instruction, tx_number).state.storage.log;
    assert(after.len() >= log.len() && after.take(log.len() as int) =~= log);
}

/// The instructions of a transaction add to the log and take nothing from
/// it.
pub proof fn lemma_run_extends(
    state: ExecutionStateView,
    program: Seq<Instruction>,
    pc: int,
    tx_number: u64,
    refunded: nat,
)
    ensures
        log_extends(
            state.storage.log,
            state.run(program, pc, tx_number, refunded).state.storage.log,
        ),
        state.run(program, pc, tx_number, refunded).state.storage.backing
            == state.storage.backing,
    decreases program.len() - pc,
{
    if 0 <= pc < program.len() {
        let stepped = state.step(program[pc], tx_number);
        lemma_step_extends(state, program[pc], tx_number);
        if stepped.outcome is None {
            lemma_run_extends(
                stepped.state,
                program,
                pc + 1,
                tx_number,
                refunded + stepped.refund as nat,
            );
            lemma_extends_in_turn(
                state.storage.log,
                stepped.state.storage.log,
                state.run(program, pc, tx_number, refunded).state.storage.log,
            );
        }
    } else {
        assert(state.storage.log.take(state.storage.log.len() as int) =~= state.storage.log);
    }
}

/// Publishing bytecodes adds to the log and takes nothing from it.
pub proof fn lemma_publishing_extends(
    backing: Map<StorageKey, u64>,
    log: Seq<StorageLogQuery>,
    deps: Seq<FactoryDepView>,
    enforce_compression: bool,
    tx_number: u64,
)
    ensures
        log_extends(log, log_after_publishing(backing, log, deps, enforce_compression, tx_number)),
    decreases deps.len(),
{
    if deps.len() == 0 {
        assert(log.take(log.len() as int) =~= log);
    } else {
        lemma_publishing_extends(backing, log, deps.drop_last(), enforce_compression, tx_number);
        let before = log_after_publishing(
            backing,
            log,
            deps.drop_last(),
            enforce_compression,
            tx_number,
        );
        let after = log_after_publishing(backing, log, deps, enforce_compression, tx_number);
        assert(after.take(before.len() as int) =~= before);
        lemma_extends_in_turn(log, before, after);
    }
}

/// The execution of a transaction adds to the log and takes nothing from
/// it.
pub proof fn lemma_execution_extends(
    state: ExecutionStateView,
    entry: BootloaderTxView,
    tx_number: u64,
    base_fee: u64,
    max_words: u64,
)
    ensures
        log_extends(
            state.storage.log,
            state.execute_tx(entry, tx_number, base_fee, max_words).state.storage.log,
        ),
        state.execute_tx(entry, tx_number, base_fee, max_words).state.storage.backing
            == state.storage.backing,
{
    let log = state.storage.log;
    if state.validate(entry.tx, base_fee, max_words) is None {
        let started = state.begin_tx(entry.tx);
        lemma_run_extends(started, entry.tx.program, 0, tx_number, 0);
        let ran = started.run(entry.tx.program, 0, tx_number, 0);
        let finished = ran.state.finish_tx(ran.outcome, tx_number);
        assert(finished.storage.log.take(ran.state.storage.log.len() as int)
            =~= ran.state.storage.log);
        lemma_extends_in_turn(log, ran.state.storage.log, finished.storage.log);
        if !(ran.outcome is Halted) {
            lemma_publishing_extends(
                finished.storage.backing,
                finished.storage.log,
                entry.tx.factory_deps,
                entry.enforce_compression,
                tx_number,
            );
            lemma_extends_in_turn(
                log,
                finished.storage.log,
                state.execute_tx(entry, tx_number, base_fee, max_words).state.storage.log,
            );
        }
    } else {
        assert(log.take(log.len() as int) =~= log);
    }
}

proof fn lemma_batch_extends(vm: VmView, refunded: nat, trace: Seq<TraceEvent>)
    ensures
        log_extends(vm.state.storage.log, vm.inspect_batch(refunded, trace).vm.state.storage.log),
        vm.inspect_batch(refunded, trace).vm.state.storage.backing == vm.state.storage.backing,
        vm.inspect_batch(refunded, trace).vm.bootloader.items == vm.bootloader.items,
    decreases vm.bootloader.items.len() - vm.bootloader.next,
{
    let log = vm.state.storage.log;
    match vm.bootloader.pending() {
        Some(index) => {
            let (next, report) = vm.after_execution(index);
            lemma_execution_extends(
                vm.state,
                vm.bootloader.items[index]->Tx_0,
                vm.bootloader.executed as u64,
                vm.batch_env.base_fee,
                vm.system_env.max_encoded_tx_words,
            );
            if !(report.outcome is Halted || index < vm.bootloader.next || index
                >= vm.bootloader.items.len()) {
                lemma_batch_extends(
                    next,
                    refunded + report.gas_refunded as nat,
                    trace + vm.execution_trace(index),
                );
                lemma_extends_in_turn(
                    log,
                    next.state.storage.log,
                    vm.inspect_batch(refunded, trace).vm.state.storage.log,
                );
            }
        },
        None => {
            assert(log.take(log.len() as int) =~= log);
        },
    }
}

/// A run of the interpreter adds to the storage log and takes nothing from
/// it, and leaves the bootloader's sequence as it is.
pub proof fn lemma_inspect_extends(vm: VmView, mode: VmExecutionMode)
    ensures
        log_extends(vm.state.storage.log, vm.inspect(mode).vm.state.storage.log),
        vm.inspect(mode).vm.state.storage.backing == vm.state.storage.backing,
        vm.inspect(mode).vm.bootloader.items == vm.bootloader.items,
{
    match mode {
        VmExecutionMode::OneTx => {
            match vm.bootloader.pending() {
                Some(index) => {
                    lemma_execution_extends(
                        vm.state,
                        vm.bootloader.items[index]->Tx_0,
                        vm.bootloader.executed as u64,
                        vm.batch_env.base_fee,
                        vm.system_env.max_encoded_tx_words,
                    );
                },
                None => {
                    assert(vm.state.storage.log.take(vm.state.storage.log.len() as int)
                        =~= vm.state.storage.log);
                },
            }
        },
        VmExecutionMode::Batch => {
            lemma_batch_extends(vm, 0, Seq::empty());
        },
    }
}

} // verus!
