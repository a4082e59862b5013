//! What holds of the engine across its operations.

use crate::bootloader::{
    last_tx, lemma_pending_in_range, next_tx_from, BootloaderItemView, BootloaderTxView,
};
use crate::dedup::{is_committed_delta, key_below};
use crate::storage::{value_of, StorageKey, StorageLogQuery};
use crate::transaction::{L2BlockEnv, TransactionView, VmExecutionMode};
use crate::vm::VmView;
use vstd::prelude::*;

verus! {

/// What a batch commits has at most one entry for a slot, and that entry
/// carries the value that the slot has at the end of the batch.
pub proof fn lemma_delta_has_one_final_entry_per_slot(
    backing: Map<StorageKey, u64>,
    log: Seq<StorageLogQuery>,
    delta: Seq<StorageLogQuery>,
    i: int,
    j: int,
)
    requires
        is_committed_delta(backing, log, delta),
        0 <= i < delta.len(),
        0 <= j < delta.len(),
        delta[i].key == delta[j].key,
    ensures
        i == j,
        delta[i].written_value == value_of(backing, log, delta[i].key),
{
}

/// A slot whose value at the end of the batch is its value at the start has
/// no entry in what the batch commits, whatever was done to it in between.
pub proof fn lemma_unchanged_slot_has_no_entry(
    backing: Map<StorageKey, u64>,
    log: Seq<StorageLogQuery>,
    delta: Seq<StorageLogQuery>,
    key: StorageKey,
    i: int,
)
    requires
        is_committed_delta(backing, log, delta),
        value_of(backing, log, key) == backing[key],
        0 <= i < delta.len(),
    ensures
        delta[i].key != key,
{
}

/// Whatever was done since a snapshot was taken: as long as it is the
/// topmost snapshot, rolling back puts the execution state back as it was,
/// cuts the storage log to the length it had, and puts the bootloader's
/// cursor where it stood.
pub proof fn lemma_rollback_restores(before: VmView, later: VmView)
    requires
        before.wf(),
        later.wf(),
        later.snapshots.len() > 0,
        later.snapshots.last() == before.capture(),
    ensures
        later.rolled_back().state.callstack == before.state.callstack,
        later.rolled_back().state.sink == before.state.sink,
        later.rolled_back().state.used_contracts == before.state.used_contracts,
        later.rolled_back().state.storage.backing == later.state.storage.backing,
        later.rolled_back().state.storage.log.len() == before.state.storage.log.len(),
        later.rolled_back().bootloader.items.len() == before.bootloader.items.len(),
        later.rolled_back().bootloader.next == before.bootloader.next,
        later.rolled_back().bootloader.executed == before.bootloader.executed,
        later.rolled_back().snapshots == later.snapshots.drop_last(),
{
}

proof fn lemma_pending_after_push(items: Seq<BootloaderItemView>, entry: BootloaderTxView, from: int)
    requires
        0 <= from <= items.len(),
    ensures
        next_tx_from(items.push(BootloaderItemView::Tx(entry)), from) == match next_tx_from(
            items,
            from,
        ) {
            Some(index) => Some(index),
            None => Some(items.len() as int),
        },
    decreases items.len() - from,
{
    if from < items.len() {
        if !(items[from] is Tx) {
            lemma_pending_after_push(items, entry, from + 1);
        }
    }
}

/// Whether compression is enforced for a transaction has no part in how its
/// execution ends, in the gas it uses, or in the gas refunded to it.
pub proof fn lemma_compression_leaves_execution(vm: VmView, tx: TransactionView)
    requires
        vm.wf(),
    ensures
        vm.pushed(tx, true).inspect_one().result == vm.pushed(tx, false).inspect_one().result,
        vm.pushed(tx, true).inspect_one().gas_refunded == vm.pushed(
            tx,
            false,
        ).inspect_one().gas_refunded,
        vm.pushed(tx, true).inspect_one().vm.state.top().gas_remaining == vm.pushed(
            tx,
            false,
        ).inspect_one().vm.state.top().gas_remaining,
{
    let with = vm.pushed(tx, true);
    let without = vm.pushed(tx, false);
    let entry_with = with.bootloader.items.last()->Tx_0;
    let entry_without = without.bootloader.items.last()->Tx_0;
    lemma_pending_after_push(vm.bootloader.items, entry_with, vm.bootloader.next as int);
    lemma_pending_after_push(vm.bootloader.items, entry_without, vm.bootloader.next as int);
    lemma_pending_in_range(vm.bootloader.items, vm.bootloader.next as int);
}

/// After a transaction has been pushed and the interpreter has run for one
/// transaction, compression counts as failed exactly if it was enforced for
/// the pushed transaction and one of its bytecodes is not published.
pub proof fn lemma_compression_failure(vm: VmView, tx: TransactionView, with_compression: bool)
    requires
        vm.wf(),
    ensures
        vm.pushed(tx, with_compression).inspect_one().vm.compression_failed() == (with_compression
            && crate::state::some_unpublished(
            vm.pushed(tx, with_compression).inspect_one().vm.state.storage.backing,
            vm.pushed(tx, with_compression).inspect_one().vm.state.storage.log,
            tx.factory_deps,
        )),
{
    assert(vm.pushed(tx, with_compression).bootloader.items.last() is Tx);
}

/// What can be done to an instance between two calls.
pub enum Operation {
    Push { tx: TransactionView, with_compression: bool },
    StartBlock { block: L2BlockEnv },
    Inspect { mode: VmExecutionMode },
    MakeSnapshot,
    Rollback,
    PopSnapshot,
}

/// The instance after `operation`.
pub open spec fn apply(vm: VmView, operation: Operation) -> VmView {
    match operation {
        Operation::Push { tx, with_compression } => vm.pushed(tx, with_compression),
        Operation::StartBlock { block } => vm.with_block(block),
        Operation::Inspect { mode } => vm.inspect(mode).vm,
        Operation::MakeSnapshot => VmView { snapshots: vm.snapshots.push(vm.capture()), ..vm },
        Operation::Rollback => vm.rolled_back(),
        Operation::PopSnapshot => VmView {
            snapshots: if vm.snapshots.len() > 0 {
                vm.snapshots.drop_last()
            } else {
                vm.snapshots
            },
            ..vm
        },
    }
}

/// The instance after `operations`, in their order.
pub open spec fn apply_all(vm: VmView, operations: Seq<Operation>) -> VmView
    decreases operations.len(),
{
    if operations.len() == 0 {
        vm
    } else {
        apply(apply_all(vm, operations.drop_last()), operations.last())
    }
}

/// A run of the interpreter leaves the snapshots and the environment alone.
pub proof fn lemma_inspect_keeps_snapshots(vm: VmView, mode: VmExecutionMode)
    ensures
        vm.inspect(mode).vm.snapshots == vm.snapshots,
        vm.inspect(mode).vm.batch_env == vm.batch_env,
        vm.inspect(mode).vm.system_env == vm.system_env,
{
    match mode {
        VmExecutionMode::OneTx => {},
        VmExecutionMode::Batch => {
            lemma_batch_keeps_snapshots(vm, 0, Seq::empty());
        },
    }
}

proof fn lemma_batch_keeps_snapshots(vm: VmView, refunded: nat, trace: Seq<crate::tracer::TraceEvent>)
    ensures
        vm.inspect_batch(refunded, trace).vm.snapshots == vm.snapshots,
        vm.inspect_batch(refunded, trace).vm.batch_env == vm.batch_env,
        vm.inspect_batch(refunded, trace).vm.system_env == vm.system_env,
    decreases vm.bootloader.items.len() - vm.bootloader.next,
{
    match vm.bootloader.pending() {
        Some(index) => {
            let (next, report) = vm.after_execution(index);
            if !(report.outcome is Halted || index < vm.bootloader.next || index
                >= vm.bootloader.items.len()) {
                lemma_batch_keeps_snapshots(
                    next,
                    refunded + report.gas_refunded as nat,
                    trace + vm.execution_trace(index),
                );
            }
        },
        None => {},
    }
}

/// Whether the instance has more than `depth` snapshots after every prefix
/// of `operations`.
pub open spec fn keeps_depth(vm: VmView, operations: Seq<Operation>, depth: nat) -> bool {
    forall|count: int|
        0 <= count <= operations.len() ==> (#[trigger] apply_all(
            vm,
            operations.take(count),
        )).snapshots.len() > depth
}

/// As long as more than `depth` snapshots stay on the stack, the lowest
/// `depth + 1` of them stay what they are, whatever is done.
pub proof fn lemma_operations_keep_snapshots(
    vm: VmView,
    operations: Seq<Operation>,
    depth: nat,
)
    requires
        keeps_depth(vm, operations, depth),
    ensures
        apply_all(vm, operations).snapshots.take(depth as int + 1) == vm.snapshots.take(depth as int + 1),
    decreases operations.len(),
{
    if operations.len() > 0 {
        let init = operations.drop_last();
        assert forall|count: int| 0 <= count <= init.len() implies (#[trigger] apply_all(
            vm,
            init.take(count),
        )).snapshots.len() > depth by {
            assert(init.take(count) =~= operations.take(count));
        }
        lemma_operations_keep_snapshots(vm, init, depth);
        let before = apply_all(vm, init);
        assert(operations.take(operations.len() as int) =~= operations);
        match operations.last() {
            Operation::Inspect { mode } => {
                lemma_inspect_keeps_snapshots(before, mode);
            },
            _ => {},
        }
    }
}

/// Whether `later` goes on from `vm`: over the same backing store and in
/// the same environment, with the storage log and the bootloader's sequence
/// of `vm` at the start of its own.
pub open spec fn goes_on_from(later: VmView, vm: VmView) -> bool {
    &&& later.state.storage.backing == vm.state.storage.backing
    &&& later.batch_env == vm.batch_env
    &&& later.system_env == vm.system_env
    &&& crate::invariants::log_extends(vm.state.storage.log, later.state.storage.log)
    &&& vm.bootloader.items.len() <= later.bootloader.items.len()
    &&& later.bootloader.items.take(vm.bootloader.items.len() as int) == vm.bootloader.items
}

/// Between a snapshot and the rollback to it the storage log and the
/// bootloader's sequence only grow behind what the snapshot saw: whatever is
/// done while the snapshot stays on the stack, what it saw stays in front.
pub proof fn lemma_operations_go_on(vm: VmView, operations: Seq<Operation>, depth: nat)
    requires
        vm.wf(),
        keeps_depth(vm, operations, depth),
        depth < vm.snapshots.len(),
        vm.snapshots[depth as int].state.storage_log_len == vm.state.storage.log.len(),
        vm.snapshots[depth as int].bootloader.items == vm.bootloader.items.len(),
    ensures
        goes_on_from(apply_all(vm, operations), vm),
    decreases operations.len(),
{
    let log = vm.state.storage.log;
    let items = vm.bootloader.items;
    if operations.len() == 0 {
        assert(log.take(log.len() as int) =~= log);
        assert(items.take(items.len() as int) =~= items);
    } else {
        let init = operations.drop_last();
        assert forall|count: int| 0 <= count <= init.len() implies (#[trigger] apply_all(
            vm,
            init.take(count),
        )).snapshots.len() > depth by {
            assert(init.take(count) =~= operations.take(count));
        }
        lemma_operations_go_on(vm, init, depth);
        lemma_operations_keep_snapshots(vm, init, depth);
        crate::invariants::lemma_operations_keep_valid(vm, init, depth);
        let before = apply_all(vm, init);
        let after = apply_all(vm, operations);
        assert(operations.take(operations.len() as int) =~= operations);
        assert(after.snapshots.len() > depth);
        assert(init.take(init.len() as int) =~= init);
        assert(before.snapshots.len() > depth);
        assert(before.snapshots[depth as int] == before.snapshots.take(depth as int + 1)[depth as int]);
        assert(vm.snapshots[depth as int] == vm.snapshots.take(depth as int + 1)[depth as int]);
        match operations.last() {
            Operation::Inspect { mode } => {
                lemma_inspect_keeps_snapshots(before, mode);
                crate::invariants::lemma_inspect_extends(before, mode);
                crate::invariants::lemma_extends_in_turn(
                    log,
                    before.state.storage.log,
                    after.state.storage.log,
                );
            },
            Operation::Rollback => {
                let top = before.snapshots[before.snapshots.len() - 1];
                assert(before.snapshots[depth as int].within(
                    top.state.storage_log_len,
                    top.bootloader.items,
                ));
                assert(top.within(
                    before.state.storage.log.len(),
                    before.bootloader.items.len(),
                ));
                assert(after.state.storage.log.take(log.len() as int)
                    =~= before.state.storage.log.take(log.len() as int));
                assert(after.bootloader.items.take(items.len() as int)
                    =~= before.bootloader.items.take(items.len() as int));
            },
            _ => {
                assert(after.bootloader.items.take(items.len() as int)
                    =~= before.bootloader.items.take(items.len() as int));
            },
        }
    }
}

/// For any snapshot: after arbitrary further operations that leave it on the
/// stack and end with it on top, rolling back puts everything back. The
/// instance is what it was when the snapshot was taken: the execution state,
/// the storage log, the bootloader's sequence and its cursor, and the
/// snapshots below.
pub proof fn lemma_rollback_after_operations(vm: VmView, operations: Seq<Operation>)
    requires
        vm.wf(),
        keeps_depth(apply(vm, Operation::MakeSnapshot), operations, vm.snapshots.len()),
        apply_all(apply(vm, Operation::MakeSnapshot), operations).snapshots.len()
            == vm.snapshots.len() + 1,
    ensures
        apply(apply_all(apply(vm, Operation::MakeSnapshot), operations), Operation::Rollback)
            == vm,
{
    let start = apply(vm, Operation::MakeSnapshot);
    let later = apply_all(start, operations);
    let restored = apply(later, Operation::Rollback);
    let depth = vm.snapshots.len();
    lemma_operations_keep_snapshots(start, operations, depth);
    crate::invariants::lemma_operation_keeps_valid(vm, Operation::MakeSnapshot);
    crate::invariants::lemma_operations_keep_valid(start, operations, depth);
    lemma_operations_go_on(start, operations, depth);
    assert(later.snapshots.take(depth as int + 1) =~= later.snapshots);
    assert(start.snapshots.take(depth as int + 1) =~= start.snapshots);
    assert(later.snapshots.last() == vm.capture());
    lemma_rollback_restores(vm, later);
    assert(later.snapshots.drop_last() =~= vm.snapshots);
    assert(restored.state.storage.log =~= vm.state.storage.log);
    assert(restored.bootloader.items =~= vm.bootloader.items);
    assert(restored.state.storage == vm.state.storage);
    assert(restored.state == vm.state);
    assert(restored.bootloader == vm.bootloader);
}

proof fn lemma_observe_one_more(
    frames: Seq<crate::call_trace::TracedFrame>,
    events: Seq<crate::tracer::TraceEvent>,
    event: crate::tracer::TraceEvent,
)
    ensures
        crate::call_trace::observe_all(frames, events.push(event)) == crate::call_trace::observe(
            crate::call_trace::observe_all(frames, events),
            event,
        ),
{
    assert(events.push(event).drop_last() =~= events);
}

/// A run for a transaction that runs no instruction, such as a plain
/// transfer: if the transaction is valid it succeeds with no output, and a
/// call tracer told of the run holds no call below the transaction's own.
pub proof fn lemma_transfer_makes_no_call(vm: VmView, index: int)
    requires
        vm.wf(),
        vm.bootloader.pending() == Some(index),
        vm.bootloader.items[index]->Tx_0.tx.program.len() == 0,
    ensures
        vm.state.validate(
            vm.bootloader.items[index]->Tx_0.tx,
            vm.batch_env.base_fee,
            vm.system_env.max_encoded_tx_words,
        ) is None ==> vm.inspect_one().result == (crate::results::ExecutionResultView::Success {
            output: Seq::empty(),
        }),
        forall|held: Seq<crate::call_trace::TracedFrame>|
            crate::call_trace::traced_calls(
                #[trigger] crate::call_trace::observe_all(held, vm.inspect_one().trace),
            ).len() == 0,
{
    lemma_pending_in_range(vm.bootloader.items, vm.bootloader.next as int);
    let entry = vm.bootloader.items[index]->Tx_0;
    let (after, report) = vm.after_execution(index);
    let first = vm.state.sink.frames.len() as int;
    let frames = after.state.sink.frames;
    let started = crate::tracer::TraceEvent::TxStarted {
        tx_number: vm.bootloader.executed as u64,
        gas_limit: entry.tx.gas_limit,
    };
    let finished = crate::tracer::TraceEvent::TxFinished {
        tx_number: vm.bootloader.executed as u64,
        outcome: report.outcome,
        gas_used: report.gas_used,
    };
    let trace = vm.inspect_one().trace;
    assert forall|held: Seq<crate::call_trace::TracedFrame>|
        crate::call_trace::traced_calls(
            #[trigger] crate::call_trace::observe_all(held, trace),
        ).len() == 0 by {
        lemma_observe_one_more(held, Seq::empty(), started);
        if frames.len() == first {
            assert(trace =~= Seq::empty().push(started).push(finished));
            lemma_observe_one_more(held, Seq::empty().push(started), finished);
        } else {
            assert(frames.len() == first + 1);
            let frame = crate::tracer::TraceEvent::Frame {
                frame: first as usize,
                parent: frames[first].parent,
                reverted: frames[first].reverted,
            };
            assert(trace =~= Seq::empty().push(started).push(frame).push(finished));
            lemma_observe_one_more(held, Seq::empty().push(started), frame);
            lemma_observe_one_more(held, Seq::empty().push(started).push(frame), finished);
            assert(crate::call_trace::observe_all(held, trace).len() == 1);
        }
    }
}

/// A transaction pushed with compression enforced, with nothing pending
/// before it, that refers to a bytecode which is not known and comes without
/// its compressed form: unless the transaction itself writes the slot that
/// makes the bytecode known, compression has failed after the run.
pub proof fn lemma_unaccompanied_bytecode_fails_compression(
    vm: VmView,
    tx: TransactionView,
    dep: int,
)
    requires
        vm.wf(),
        vm.bootloader.pending() is None,
        0 <= dep < tx.factory_deps.len(),
        forall|j: int|
            0 <= j < tx.factory_deps.len() && (#[trigger] tx.factory_deps[j]).hash
                == tx.factory_deps[dep].hash ==> tx.factory_deps[j].compressed is None,
        value_of(
            vm.state.storage.backing,
            vm.state.storage.log,
            crate::transaction::known_code_key(tx.factory_deps[dep].hash),
        ) == 0,
        crate::untouched::spares_slot(
            tx.program,
            crate::transaction::known_code_key(tx.factory_deps[dep].hash),
        ),
        vm.pushed(tx, true).inspect_one().vm.state.storage.log.len() <= usize::MAX,
    ensures
        vm.pushed(tx, true).inspect_one().vm.compression_failed(),
{
    let pushed = vm.pushed(tx, true);
    let entry = pushed.bootloader.items.last()->Tx_0;
    let after = pushed.inspect_one().vm;
    lemma_pending_after_push(vm.bootloader.items, entry, vm.bootloader.next as int);
    assert(pushed.bootloader.pending() == Some(vm.bootloader.items.len() as int));
    crate::untouched::lemma_execution_spares_bytecode(
        vm.state,
        entry,
        vm.bootloader.executed as u64,
        vm.batch_env.base_fee,
        vm.system_env.max_encoded_tx_words,
        tx.factory_deps[dep].hash,
    );
    crate::invariants::lemma_execution_extends(
        vm.state,
        entry,
        vm.bootloader.executed as u64,
        vm.batch_env.base_fee,
        vm.system_env.max_encoded_tx_words,
    );
    assert(last_tx(after.bootloader.items) == Some(entry));
    assert(after.state.has_unpublished(entry));
}

/// A transaction that fails validation, pushed with nothing pending before
/// it, halts the run with the reason of the failure, and the execution state
/// stays as it was.
pub proof fn lemma_invalid_transaction_halts(
    vm: VmView,
    tx: TransactionView,
    with_compression: bool,
    reason: crate::results::Halt,
)
    requires
        vm.wf(),
        vm.bootloader.pending() is None,
        vm.state.validate(tx, vm.batch_env.base_fee, vm.system_env.max_encoded_tx_words) == Some(
            reason,
        ),
    ensures
        vm.pushed(tx, with_compression).inspect_one().result
            == (crate::results::ExecutionResultView::Halt { reason }),
        vm.pushed(tx, with_compression).inspect_one().vm.state == vm.state,
{
    let pushed = vm.pushed(tx, with_compression);
    let entry = pushed.bootloader.items.last()->Tx_0;
    lemma_pending_after_push(vm.bootloader.items, entry, vm.bootloader.next as int);
    assert(pushed.bootloader.pending() == Some(vm.bootloader.items.len() as int));
}

} // verus!
