//! The VM instance: one execution state, one bootloader state and one stack
//! of snapshots, for the lifetime of exactly one batch.

use crate::bootloader::{
    last_tx, lemma_pending_in_range, BootloaderCursor, BootloaderCursorView, BootloaderItemView,
    BootloaderState,
    BootloaderTxView, BootloaderView,
};
use crate::dedup::{deduplicated_storage_logs, is_committed_delta};
use crate::events::{into_user_logs, into_vm_events, FrameRecord};
use crate::results::{
    into_result, result_of, BytecodeCompressionError, CurrentExecutionState, ExecutionResult,
    ExecutionResultView, Halt, TxOutcome, VmExecutionLogs, VmExecutionResultAndLogs,
    VmExecutionStatistics, VmMemoryMetrics,
};
use crate::state::{
    ExecutionState, ExecutionStateView, StateSnapshot, StateSnapshotView, TxReport,
};
use crate::storage::{
    pending_of, refunds_of, value_of, InMemoryStorage, StorageKey, StorageLogQuery,
};
use crate::tracer::{TraceEvent, Tracer, TracerDispatcher};
use crate::transaction::{
    known_code_key, CompressedBytecodeInfo, CompressedBytecodeView, FactoryDep, FactoryDepView,
    L1BatchEnv, L2BlockEnv, SystemEnv, Transaction, TransactionView, VmExecutionMode,
    KNOWN_CODES_ADDRESS,
};
use std::marker::PhantomData;
use std::rc::Rc;
use vstd::prelude::*;

verus! {

/// Whether an instance keeps the history that snapshots need. The choice is
/// made where the instance is built, by its type.
pub trait HistoryMode {

}

/// Snapshots can be made and rolled back.
#[derive(Debug)]
pub struct HistoryEnabled;

/// No snapshots.
#[derive(Debug)]
pub struct HistoryDisabled;

impl HistoryMode for HistoryEnabled {

}

impl HistoryMode for HistoryDisabled {

}

/// A capture of an instance: of the execution state what a rollback puts
/// back, and the bootloader's cursor.
pub struct VmSnapshot {
    state: StateSnapshot,
    bootloader: BootloaderCursor,
}

pub struct VmSnapshotView {
    pub state: StateSnapshotView,
    pub bootloader: BootloaderCursorView,
}

impl View for VmSnapshot {
    type V = VmSnapshotView;

    closed spec fn view(&self) -> VmSnapshotView {
        VmSnapshotView { state: self.state@, bootloader: self.bootloader@ }
    }
}

impl VmSnapshotView {
    pub open spec fn wf(self) -> bool {
        self.state.wf() && self.bootloader.wf()
    }

    /// Whether the snapshot was taken no later than at the given lengths of
    /// the storage log and of the bootloader's sequence.
    pub open spec fn within(self, log_len: nat, items: nat) -> bool {
        self.state.storage_log_len <= log_len && self.bootloader.items <= items
    }
}

/// The compressed bytecodes that the bootloader accepts with a transaction:
/// where compression is enforced, those that came with a bytecode not yet
/// known; none where it is not.
pub open spec fn accepted_bytecodes(
    backing: Map<StorageKey, u64>,
    log: Seq<StorageLogQuery>,
    deps: Seq<FactoryDepView>,
    enforce_compression: bool,
) -> Seq<CompressedBytecodeView>
    decreases deps.len(),
{
    if !enforce_compression || deps.len() == 0 {
        Seq::empty()
    } else {
        let rest = accepted_bytecodes(backing, log, deps.drop_last(), enforce_compression);
        let dep = deps.last();
        if dep.compressed is Some && value_of(backing, log, known_code_key(dep.hash)) == 0 {
            rest.push(CompressedBytecodeView { hash: dep.hash, compressed: dep.compressed.unwrap() })
        } else {
            rest
        }
    }
}

/// One callback for each frame from `first` on, in the order of the frames.
pub open spec fn frame_events(frames: Seq<FrameRecord>, first: int) -> Seq<TraceEvent> {
    Seq::new(
        if 0 <= first <= frames.len() {
            (frames.len() - first) as nat
        } else {
            0
        },
        |i: int|
            TraceEvent::Frame {
                frame: (first + i) as usize,
                parent: frames[first + i].parent,
                reverted: frames[first + i].reverted,
            },
    )
}

/// The callbacks of one transaction: its start, its frames, its end.
pub open spec fn tx_trace(
    tx_number: u64,
    gas_limit: u32,
    frames: Seq<FrameRecord>,
    first: int,
    report: TxReport,
) -> Seq<TraceEvent> {
    seq![TraceEvent::TxStarted { tx_number, gas_limit }] + frame_events(frames, first) + seq![
        TraceEvent::TxFinished { tx_number, outcome: report.outcome, gas_used: report.gas_used },
    ]
}

/// What an instance is, to its users.
pub struct VmView {
    pub state: ExecutionStateView,
    pub bootloader: BootloaderView,
    pub snapshots: Seq<VmSnapshotView>,
    pub batch_env: L1BatchEnv,
    pub system_env: SystemEnv,
}

/// What a run of the interpreter does to an instance.
pub struct InspectResult {
    pub vm: VmView,
    pub result: ExecutionResultView,
    pub gas_refunded: nat,
    /// The callbacks that the observers get, in their order.
    pub trace: Seq<TraceEvent>,
}

impl VmView {
    /// The instance's invariant between calls: only the batch's frame is
    /// open, and every snapshot was taken no later than the one above it,
    /// the topmost no later than now.
    pub open spec fn wf(self) -> bool {
        &&& self.state.wf()
        &&& self.state.callstack.len() == 1
        &&& self.bootloader.wf()
        &&& forall|i: int| 0 <= i < self.snapshots.len() ==> (#[trigger] self.snapshots[i]).wf()
        &&& forall|i: int|
            0 <= i < self.snapshots.len() ==> (#[trigger] self.snapshots[i]).within(
                self.state.storage.log.len(),
                self.bootloader.items.len(),
            )
        &&& forall|i: int, j: int|
            0 <= i < j < self.snapshots.len() ==> (#[trigger] self.snapshots[i]).within(
                (#[trigger] self.snapshots[j]).state.storage_log_len,
                self.snapshots[j].bootloader.items,
            )
    }

    /// The bootloader's cursor.
    pub open spec fn cursor(self) -> BootloaderCursorView {
        BootloaderCursorView {
            items: self.bootloader.items.len(),
            next: self.bootloader.next,
            executed: self.bootloader.executed,
        }
    }

    /// The instance after `tx` has been appended to the pending sequence.
    pub open spec fn pushed(self, tx: TransactionView, enforce_compression: bool) -> VmView {
        VmView {
            bootloader: self.bootloader.with_item(
                BootloaderItemView::Tx(
                    BootloaderTxView {
                        tx,
                        enforce_compression,
                        compressed_bytecodes: accepted_bytecodes(
                            self.state.storage.backing,
                            self.state.storage.log,
                            tx.factory_deps,
                            enforce_compression,
                        ),
                    },
                ),
            ),
            ..self
        }
    }

    /// The instance after a block boundary has been appended.
    pub open spec fn with_block(self, block: L2BlockEnv) -> VmView {
        VmView { bootloader: self.bootloader.with_item(BootloaderItemView::Block(block)), ..self }
    }

    /// The instance after the pending transaction at `index` has been
    /// executed, and the report of that.
    pub open spec fn after_execution(self, index: int) -> (VmView, TxReport) {
        let executed = self.state.execute_tx(
            self.bootloader.items[index]->Tx_0,
            self.bootloader.executed as u64,
            self.batch_env.base_fee,
            self.system_env.max_encoded_tx_words,
        );
        (
            VmView { state: executed.state, bootloader: self.bootloader.after_tx(index), ..self },
            executed.report,
        )
    }

    /// What a run for one transaction does: it executes the next pending
    /// transaction; with none pending it does nothing and succeeds.
    pub open spec fn inspect_one(self) -> InspectResult {
        match self.bootloader.pending() {
            Some(index) => {
                let (vm, report) = self.after_execution(index);
                InspectResult {
                    vm,
                    result: result_of(report.outcome),
                    gas_refunded: report.gas_refunded as nat,
                    trace: self.execution_trace(index),
                }
            },
            None => InspectResult {
                vm: self,
                result: ExecutionResultView::Success { output: Seq::empty() },
                gas_refunded: 0,
                trace: Seq::empty(),
            },
        }
    }

    /// The callbacks for the execution of the pending transaction at
    /// `index`.
    pub open spec fn execution_trace(self, index: int) -> Seq<TraceEvent> {
        let (vm, report) = self.after_execution(index);
        tx_trace(
            self.bootloader.executed as u64,
            self.bootloader.items[index]->Tx_0.tx.gas_limit,
            vm.state.sink.frames,
            self.state.sink.frames.len() as int,
            report,
        )
    }

    /// What a run to the end of the batch does: it executes the pending
    /// transactions in their order until one halts, and halts with it, or
    /// until none is left, and succeeds.
    pub open spec fn inspect_batch(self, refunded: nat, trace: Seq<TraceEvent>) -> InspectResult
        decreases self.bootloader.items.len() - self.bootloader.next,
    {
        match self.bootloader.pending() {
            Some(index) => {
                let (vm, report) = self.after_execution(index);
                if report.outcome is Halted || index < self.bootloader.next || index
                    >= self.bootloader.items.len() {
                    InspectResult {
                        vm,
                        result: result_of(report.outcome),
                        gas_refunded: refunded + report.gas_refunded as nat,
                        trace: trace + self.execution_trace(index),
                    }
                } else {
                    vm.inspect_batch(
                        refunded + report.gas_refunded as nat,
                        trace + self.execution_trace(index),
                    )
                }
            },
            None => InspectResult {
                vm: self,
                result: ExecutionResultView::Success { output: Seq::empty() },
                gas_refunded: refunded,
                trace,
            },
        }
    }

    /// What a run of the interpreter does.
    pub open spec fn inspect(self, mode: VmExecutionMode) -> InspectResult {
        match mode {
            VmExecutionMode::OneTx => self.inspect_one(),
            VmExecutionMode::Batch => self.inspect_batch(0, Seq::empty()),
        }
    }

    /// The capture of the instance as it is.
    pub open spec fn capture(self) -> VmSnapshotView {
        VmSnapshotView {
            state: StateSnapshotView {
                callstack: self.state.callstack,
                sink: self.state.sink,
                used_contracts: self.state.used_contracts,
                storage_log_len: self.state.storage.log.len(),
            },
            bootloader: self.cursor(),
        }
    }

    /// The instance after the topmost snapshot has been put back.
    pub open spec fn rolled_back(self) -> VmView {
        let snapshot = self.snapshots.last();
        VmView {
            state: snapshot.state.restore(self.state),
            bootloader: BootloaderView {
                items: self.bootloader.items.take(snapshot.bootloader.items as int),
                next: snapshot.bootloader.next,
                executed: snapshot.bootloader.executed,
            },
            snapshots: self.snapshots.drop_last(),
            ..self
        }
    }

    /// Whether a bytecode that the latest transaction refers to is not
    /// published although compression was enforced for it.
    pub open spec fn compression_failed(self) -> bool {
        match last_tx(self.bootloader.items) {
            Some(entry) => entry.enforce_compression && self.state.has_unpublished(entry),
            None => false,
        }
    }
}

/// An attempt to go back to a snapshot when none was taken: a fault of the
/// caller, which no caller is meant to handle and go on.
#[derive(Clone, Copy, Debug, PartialEq, Eq, Structural)]
pub enum InvariantViolation {
    NoSnapshot,
}

/// The instance that executes one batch.
pub struct Vm<H: HistoryMode> {
    bootloader_state: BootloaderState,
    state: ExecutionState,
    storage: Rc<InMemoryStorage>,
    system_env: SystemEnv,
    batch_env: L1BatchEnv,
    snapshots: Vec<VmSnapshot>,
    _phantom: PhantomData<H>,
}

impl<H: HistoryMode> View for Vm<H> {
    type V = VmView;

    closed spec fn view(&self) -> VmView {
        VmView {
            state: self.state@,
            bootloader: self.bootloader_state@,
            snapshots: self.snapshots@.map_values(|snapshot: VmSnapshot| snapshot@),
            batch_env: self.batch_env,
            system_env: self.system_env,
        }
    }
}

impl<H: HistoryMode> Vm<H> {
    /// The instance's invariant; every method keeps it.
    pub closed spec fn wf(&self) -> bool {
        &&& self.state.wf()
        &&& self@.wf()
        &&& self.storage@ == self@.state.storage.backing
    }

    pub proof fn lemma_wf(&self)
        requires
            self.wf(),
        ensures
            self@.wf(),
    {
    }

    /// An instance for one batch over `storage`: nothing pending, nothing
    /// executed, no snapshot, and all the batch's gas.
    pub fn new(batch_env: L1BatchEnv, system_env: SystemEnv, storage: Rc<InMemoryStorage>) -> (vm:
        Self)
        ensures
            vm.wf(),
            vm@.batch_env == batch_env,
            vm@.system_env == system_env,
            vm@.snapshots.len() == 0,
            vm@.bootloader.items == seq![BootloaderItemView::Block(batch_env.first_l2_block)],
            vm@.bootloader.next == 1,
            vm@.bootloader.executed == 0,
            vm@.state.storage.backing == storage@,
            vm@.state.storage.log.len() == 0,
            vm@.state.sink.events.len() == 0,
            vm@.state.used_contracts.len() == 0,
            vm@.state.top().gas_remaining == system_env.batch_gas_limit,
    {
        let state = ExecutionState::new(Rc::clone(&storage), system_env.batch_gas_limit);
        let bootloader_state = BootloaderState::new(batch_env.first_l2_block);
        proof {
            state.lemma_wf();
        }
        Vm {
            bootloader_state,
            state,
            storage,
            system_env,
            batch_env,
            snapshots: Vec::new(),
            _phantom: PhantomData,
        }
    }

    /// The compressed bytecodes that the bootloader accepts with a
    /// transaction that refers to `deps`.
    fn accept_bytecodes(&self, deps: &Vec<FactoryDep>, enforce_compression: bool) -> (accepted:
        Vec<CompressedBytecodeInfo>)
        requires
            self.wf(),
        ensures
            accepted@.map_values(|info: CompressedBytecodeInfo| info@) == accepted_bytecodes(
                self@.state.storage.backing,
                self@.state.storage.log,
                deps@.map_values(|dep: FactoryDep| dep@),
                enforce_compression,
            ),
    {
        let mut accepted: Vec<CompressedBytecodeInfo> = Vec::new();
        let ghost views = deps@.map_values(|dep: FactoryDep| dep@);
        let ghost backing = self@.state.storage.backing;
        let ghost log = self@.state.storage.log;
        if !enforce_compression {
            return accepted;
        }
        let mut i: usize = 0;
        while i < deps.len()
            invariant
                self.wf(),
                enforce_compression,
                i <= deps.len(),
                views == deps@.map_values(|dep: FactoryDep| dep@),
                backing == self@.state.storage.backing,
                log == self@.state.storage.log,
                accepted@.map_values(|info: CompressedBytecodeInfo| info@) == accepted_bytecodes(
                    backing,
                    log,
                    views.take(i as int),
                    enforce_compression,
                ),
            decreases deps.len() - i,
        {
            let dep = &deps[i];
            let key = StorageKey { address: KNOWN_CODES_ADDRESS, slot: dep.hash };
            proof {
                assert(views.take(i + 1).drop_last() =~= views.take(i as int));
            }
            match &dep.compressed {
                Some(bytes) => {
                    if self.state.storage().peek(key) == 0 {
                        let info = CompressedBytecodeInfo {
                            hash: dep.hash,
                            compressed: bytes.clone(),
                        };
                        accepted.push(info);
                    }
                },
                None => {},
            }
            i = i + 1;
        }
        proof {
            assert(views.take(i as int) =~= views);
        }
        accepted
    }

    /// Appends a transaction to the pending sequence. Its bytecodes must
    /// come compressed.
    pub fn push_transaction(&mut self, tx: Transaction)
        requires
            old(self).wf(),
        ensures
            final(self).wf(),
            final(self)@ == old(self)@.pushed(tx@, true),
    {
        self.push_transaction_with_compression(tx, true)
    }

    /// Appends a transaction to the pending sequence; `with_compression`
    /// says whether its bytecodes must come compressed. The execution state
    /// stays as it is until the transaction is run.
    pub fn push_transaction_with_compression(&mut self, tx: Transaction, with_compression: bool)
        requires
            old(self).wf(),
        ensures
            final(self).wf(),
            final(self)@ == old(self)@.pushed(tx@, with_compression),
    {
        let accepted = self.accept_bytecodes(&tx.factory_deps, with_compression);
        self.bootloader_state.push_tx(tx, with_compression, accepted);
        proof {
            assert(self@.snapshots == old(self)@.snapshots);
        }
    }

    /// Tells the observers of the transaction that has just been wound up.
    fn report_tx<T: Tracer>(
        &self,
        dispatcher: &mut TracerDispatcher<T>,
        tx_number: u64,
        gas_limit: u32,
        first_frame: usize,
        report: TxReport,
    )
        requires
            self.wf(),
            first_frame <= self@.state.sink.frames.len(),
        ensures
            old(dispatcher).forwarded(
                tx_trace(tx_number, gas_limit, self@.state.sink.frames, first_frame as int, report),
                final(dispatcher),
            ),
    {
        proof {
            self.state.lemma_wf();
        }
        let started = TraceEvent::TxStarted { tx_number, gas_limit };
        dispatcher.notify(&started);
        let sink = self.state.event_sink();
        let ghost frames = sink@.frames;
        let ghost all = frame_events(frames, first_frame as int);
        let mut frame: usize = first_frame;
        proof {
            assert(seq![started] + all.take(0) =~= seq![started]);
        }
        while frame < sink.frame_count()
            invariant
                first_frame <= frame <= frames.len(),
                frames == sink@.frames,
                all == frame_events(frames, first_frame as int),
                old(dispatcher).forwarded(
                    seq![started] + all.take(frame - first_frame),
                    dispatcher,
                ),
            decreases frames.len() - frame,
        {
            let record = sink.frame(frame);
            let event = TraceEvent::Frame {
                frame,
                parent: record.parent,
                reverted: record.reverted,
            };
            let ghost before = *dispatcher;
            dispatcher.notify(&event);
            proof {
                old(dispatcher).lemma_forwarded_in_turn(
                    seq![started] + all.take(frame - first_frame),
                    &before,
                    seq![event],
                    dispatcher,
                );
                assert(seq![started] + all.take(frame - first_frame) + seq![event] =~= seq![
                    started,
                ] + all.take(frame + 1 - first_frame));
            }
            frame = frame + 1;
        }
        let finished = TraceEvent::TxFinished {
            tx_number,
            outcome: report.outcome,
            gas_used: report.gas_used,
        };
        let ghost before = *dispatcher;
        dispatcher.notify(&finished);
        proof {
            assert(all.take(frame - first_frame) =~= all);
            old(dispatcher).lemma_forwarded_in_turn(
                seq![started] + all,
                &before,
                seq![finished],
                dispatcher,
            );
        }
    }

    /// Executes the pending transaction at `index`.
    fn execute_pending<T: Tracer>(&mut self, dispatcher: &mut TracerDispatcher<T>, index: usize)
        -> (report: TxReport)
        requires
            old(self).wf(),
            old(self)@.bootloader.pending() == Some(index as int),
        ensures
            final(self).wf(),
            final(self)@ == old(self)@.after_execution(index as int).0,
            report == old(self)@.after_execution(index as int).1,
            old(self)@.state.grows_to(final(self)@.state),
            report.gas_refunded <= report.gas_used,
            final(self)@.state.top().gas_remaining + report.gas_used
                == old(self)@.state.top().gas_remaining,
            old(dispatcher).forwarded(
                old(self)@.execution_trace(index as int),
                final(dispatcher),
            ),
    {
        proof {
            lemma_pending_in_range(self@.bootloader.items, self@.bootloader.next as int);
        }
        let tx_number = self.bootloader_state.executed_txs() as u64;
        let first_frame = self.state.event_sink().frame_count();
        let (report, gas_limit) = match self.bootloader_state.tx_at(index) {
            Some(entry) => (
                self.state.execute_tx(
                    entry,
                    tx_number,
                    self.batch_env.base_fee,
                    self.system_env.max_encoded_tx_words,
                ),
                entry.tx.gas_limit,
            ),
            // There is a transaction at the index of a pending transaction.
            None => (
                TxReport {
                    outcome: TxOutcome::Halted { reason: Halt::UnexpectedVmBehavior },
                    gas_used: 0,
                    gas_refunded: 0,
                },
                0,
            ),
        };
        self.bootloader_state.mark_executed(index);
        proof {
            self.state.lemma_wf();
        }
        self.report_tx(dispatcher, tx_number, gas_limit, first_frame, report);
        report
    }

    /// Runs the interpreter until the stopping condition of `mode`, with the
    /// observers of `dispatcher` attached for the duration.
    pub fn inspect<T: Tracer>(
        &mut self,
        dispatcher: &mut TracerDispatcher<T>,
        execution_mode: VmExecutionMode,
    ) -> (result: VmExecutionResultAndLogs)
        requires
            old(self).wf(),
        ensures
            final(self).wf(),
            final(self)@ == old(self)@.inspect(execution_mode).vm,
            result@.result == old(self)@.inspect(execution_mode).result,
            result.statistics.gas_refunded == old(self)@.inspect(execution_mode).gas_refunded,
            result.statistics.gas_used + final(self)@.state.top().gas_remaining
                == old(self)@.state.top().gas_remaining,
            result.statistics.gas_refunded <= result.statistics.gas_used,
            result.statistics.total_log_queries == result@.logs.storage_logs.len(),
            old(self)@.state.grows_to(final(self)@.state),
            result@.logs.storage_logs == final(self)@.state.storage.log.skip(
                old(self)@.state.storage.log.len() as int,
            ),
            result@.logs.events == final(self)@.state.sink.finalized_events_since(
                old(self)@.state.sink.events.len() as int,
                final(self)@.batch_env.number,
            ),
            result@.logs.user_l2_to_l1_logs == final(self)@.state.sink.finalized_messages_since(
                old(self)@.state.sink.events.len() as int,
            ),
            old(dispatcher).forwarded(old(self)@.inspect(execution_mode).trace, final(dispatcher)),
    {
        proof {
            self.state.lemma_wf();
            old(dispatcher).lemma_forwarded_nothing();
        }
        let ghost mut trace: Seq<TraceEvent> = Seq::empty();
        let log_start = self.state.storage().log_len();
        let events_start = self.state.event_sink().event_count();
        let gas_start = self.state.gas_remaining();
        let mut refunded: u32 = 0;
        let mut outcome: Option<TxOutcome> = None;
        match execution_mode {
            VmExecutionMode::OneTx => {
                match self.bootloader_state.pending_tx() {
                    Some(index) => {
                        let report = self.execute_pending(dispatcher, index);
                        refunded = report.gas_refunded;
                        outcome = Some(report.outcome);
                    },
                    None => {},
                }
            },
            VmExecutionMode::Batch => {
                loop
                    invariant_except_break
                        outcome is None,
                        old(self)@.inspect_batch(0, Seq::empty()) == self@.inspect_batch(
                            refunded as nat,
                            trace,
                        ),
                    invariant
                        self.wf(),
                        old(dispatcher).forwarded(trace, dispatcher),
                        old(self)@.state.grows_to(self@.state),
                        self@.state.top().gas_remaining <= gas_start,
                        refunded <= gas_start - self@.state.top().gas_remaining,
                        gas_start == old(self)@.state.top().gas_remaining,
                    ensures
                        self.wf(),
                        old(self)@.state.grows_to(self@.state),
                        self@.state.top().gas_remaining <= gas_start,
                        refunded <= gas_start - self@.state.top().gas_remaining,
                        old(dispatcher).forwarded(trace, dispatcher),
                        self@ == old(self)@.inspect_batch(0, Seq::empty()).vm,
                        refunded == old(self)@.inspect_batch(0, Seq::empty()).gas_refunded,
                        trace == old(self)@.inspect_batch(0, Seq::empty()).trace,
                        old(self)@.inspect_batch(0, Seq::empty()).result == match outcome {
                            Some(outcome) => result_of(outcome),
                            None => ExecutionResultView::Success { output: Seq::empty() },
                        },
                    decreases self@.bootloader.items.len() - self@.bootloader.next,
                {
                    proof {
                        self.lemma_wf();
                        lemma_pending_in_range(
                            self@.bootloader.items,
                            self@.bootloader.next as int,
                        );
                    }
                    match self.bootloader_state.pending_tx() {
                        Some(index) => {
                            let ghost before = self@;
                            let ghost told = *dispatcher;
                            let report = self.execute_pending(dispatcher, index);
                            proof {
                                old(dispatcher).lemma_forwarded_in_turn(
                                    trace,
                                    &told,
                                    before.execution_trace(index as int),
                                    dispatcher,
                                );
                                trace = trace + before.execution_trace(index as int);
                            }
                            refunded = refunded + report.gas_refunded;
                            match report.outcome {
                                TxOutcome::Halted { .. } => {
                                    outcome = Some(report.outcome);
                                    break ;
                                },
                                _ => {},
                            }
                        },
                        None => {
                            break ;
                        },
                    }
                }
            },
        }
        proof {
            self.state.lemma_wf();
        }
        let storage_logs = self.state.storage().log_since(log_start);
        let sink = self.state.event_sink();
        let (raw_events, raw_messages) = sink.flatten_since(events_start);
        let events = into_vm_events(&sink.merge_events(&raw_events), self.batch_env.number);
        let user_l2_to_l1_logs = into_user_logs(&sink.merge_events(&raw_messages));
        let result = match outcome {
            Some(outcome) => into_result(outcome),
            None => ExecutionResult::Success { output: Vec::new() },
        };
        let statistics = VmExecutionStatistics {
            gas_used: gas_start - self.state.gas_remaining(),
            gas_refunded: refunded,
            total_log_queries: storage_logs.len(),
        };
        VmExecutionResultAndLogs {
            result,
            logs: VmExecutionLogs { storage_logs, events, user_l2_to_l1_logs },
            statistics,
        }
    }

    /// Whether a bytecode that the latest transaction refers to is not
    /// published although compression was enforced for it.
    fn has_unpublished_bytecodes(&self) -> (failed: bool)
        requires
            self.wf(),
        ensures
            failed == self@.compression_failed(),
    {
        let cursor = self.bootloader_state.cursor();
        let mut i: usize = cursor.items;
        proof {
            assert(self@.bootloader.items.take(i as int) =~= self@.bootloader.items);
        }
        while i > 0
            invariant
                self.wf(),
                i <= self@.bootloader.items.len(),
                last_tx(self@.bootloader.items) == last_tx(self@.bootloader.items.take(i as int)),
            decreases i,
        {
            proof {
                assert(self@.bootloader.items.take(i as int).drop_last()
                    =~= self@.bootloader.items.take(i - 1));
            }
            match self.bootloader_state.tx_at(i - 1) {
                Some(entry) => {
                    return entry.enforce_compression && self.state.has_unpublished(
                        &entry.tx.factory_deps,
                    );
                },
                None => {},
            }
            i = i - 1;
        }
        false
    }

    /// Appends `tx` to the pending sequence, runs the interpreter for one
    /// transaction, and says beside the result of that whether a bytecode
    /// of `tx` is left unpublished although compression was asked for.
    pub fn inspect_transaction_with_bytecode_compression<T: Tracer>(
        &mut self,
        dispatcher: &mut TracerDispatcher<T>,
        tx: Transaction,
        with_compression: bool,
    ) -> (result: (Result<(), BytecodeCompressionError>, VmExecutionResultAndLogs))
        requires
            old(self).wf(),
        ensures
            final(self).wf(),
            final(self)@ == old(self)@.pushed(tx@, with_compression).inspect_one().vm,
            result.1@.result == old(self)@.pushed(tx@, with_compression).inspect_one().result,
            result.1.statistics.gas_refunded == old(self)@.pushed(
                tx@,
                with_compression,
            ).inspect_one().gas_refunded,
            result.1.statistics.gas_used + final(self)@.state.top().gas_remaining
                == old(self)@.state.top().gas_remaining,
            result.1@.logs.storage_logs == final(self)@.state.storage.log.skip(
                old(self)@.state.storage.log.len() as int,
            ),
            result.0 is Err <==> final(self)@.compression_failed(),
            result.0 matches Err(error) ==> error
                == BytecodeCompressionError::BytecodeCompressionFailed,
            result.1.statistics.gas_refunded <= result.1.statistics.gas_used,
            result.1.statistics.total_log_queries == result.1@.logs.storage_logs.len(),
            result.1@.logs.events == final(self)@.state.sink.finalized_events_since(
                old(self)@.state.sink.events.len() as int,
                final(self)@.batch_env.number,
            ),
            result.1@.logs.user_l2_to_l1_logs == final(self)@.state.sink.finalized_messages_since(
                old(self)@.state.sink.events.len() as int,
            ),
            old(self)@.state.grows_to(final(self)@.state),
            old(dispatcher).forwarded(
                old(self)@.pushed(tx@, with_compression).inspect_one().trace,
                final(dispatcher),
            ),
    {
        self.push_transaction_with_compression(tx, with_compression);
        let result = self.inspect(dispatcher, VmExecutionMode::OneTx);
        if self.has_unpublished_bytecodes() {
            (Err(BytecodeCompressionError::BytecodeCompressionFailed), result)
        } else {
            (Ok(()), result)
        }
    }

    /// Closes the current block and opens `l2_block_env` inside the same
    /// batch. What the batch has accumulated stays.
    pub fn start_new_l2_block(&mut self, l2_block_env: L2BlockEnv)
        requires
            old(self).wf(),
        ensures
            final(self).wf(),
            final(self)@ == old(self)@.with_block(l2_block_env),
    {
        self.bootloader_state.start_new_l2_block(l2_block_env);
        proof {
            assert(self@.snapshots == old(self)@.snapshots);
        }
    }

    /// The memory that the bootloader has laid out for the interpreter.
    pub fn get_bootloader_memory(&self) -> (memory: Vec<(usize, u64)>)
        ensures
            memory@ == crate::bootloader::with_offsets(
                crate::bootloader::layout(self@.bootloader.items),
            ),
    {
        self.bootloader_state.bootloader_memory()
    }

    /// The compressed bytecodes accepted with the latest transaction.
    pub fn get_last_tx_compressed_bytecodes(&self) -> (bytecodes: Vec<CompressedBytecodeInfo>)
        ensures
            bytecodes@.map_values(|info: CompressedBytecodeInfo| info@) == match last_tx(
                self@.bootloader.items,
            ) {
                Some(entry) => entry.compressed_bytecodes,
                None => Seq::empty(),
            },
    {
        self.bootloader_state.get_last_tx_compressed_bytecodes()
    }

    /// The gas that the current call frame has left.
    pub fn gas_remaining(&self) -> (gas: u32)
        requires
            self.wf(),
        ensures
            gas == self@.state.top().gas_remaining,
    {
        self.state.gas_remaining()
    }

    /// The number of accesses in the storage log.
    pub fn storage_log_len(&self) -> (len: usize)
        requires
            self.wf(),
        ensures
            len == self@.state.storage.log.len(),
    {
        self.state.storage().log_len()
    }

    /// The final view of the batch: the events and outbound messages of
    /// frames that were not reverted, under the batch's number; the net
    /// storage writes; the contracts used; the refunds granted.
    pub fn get_current_execution_state(&self) -> (current: CurrentExecutionState)
        requires
            self.wf(),
            self@.state.storage.log.len() <= u32::MAX,
        ensures
            current.events@ == self@.state.sink.finalized_events(self@.batch_env.number),
            current.user_l2_to_l1_logs@ == self@.state.sink.finalized_messages(),
            is_committed_delta(
                self@.state.storage.backing,
                self@.state.storage.log,
                current.deduplicated_storage_logs@,
            ),
            current.deduplicated_storage_logs@.len() <= self@.state.storage.log.len(),
            current.used_contract_hashes@ == self@.state.used_contracts,
            current.storage_refunds@ == refunds_of(self@.state.storage.log),
            current.system_logs@.len() == 0,
            current.pubdata_costs@.len() == 0,
    {
        proof {
            self.state.lemma_wf();
        }
        let sink = self.state.event_sink();
        let (raw_events, l1_messages) = sink.flatten();
        let events = into_vm_events(&sink.merge_events(&raw_events), self.batch_env.number);
        let user_l2_to_l1_logs = into_user_logs(&sink.merge_events(&l1_messages));
        let deduplicated_storage_logs = deduplicated_storage_logs(self.state.storage());
        CurrentExecutionState {
            events,
            deduplicated_storage_logs,
            used_contract_hashes: self.state.used_contracts(),
            user_l2_to_l1_logs,
            system_logs: Vec::new(),
            storage_refunds: self.state.storage().returned_refunds(),
            pubdata_costs: Vec::new(),
        }
    }

    /// The sizes of the instance's buffers. Nothing changes.
    pub fn record_vm_memory_metrics(&self) -> (metrics: VmMemoryMetrics)
        requires
            self.wf(),
        ensures
            metrics.event_sink_events == self@.state.sink.events.len(),
            metrics.event_sink_frames == self@.state.sink.frames.len(),
            metrics.storage_log == self@.state.storage.log.len(),
            metrics.storage_pending == pending_of(self@.state.storage.log).len(),
            metrics.callstack == self@.state.callstack.len(),
            metrics.used_contracts == self@.state.used_contracts.len(),
            metrics.bootloader_items == self@.bootloader.items.len(),
            metrics.snapshots == self@.snapshots.len(),
    {
        proof {
            self.state.lemma_wf();
        }
        VmMemoryMetrics {
            event_sink_events: self.state.event_sink().event_count(),
            event_sink_frames: self.state.event_sink().frame_count(),
            storage_log: self.state.storage().log_len(),
            storage_pending: self.state.storage().pending_depth(),
            callstack: self.state.callstack_depth(),
            used_contracts: self.state.used_contracts().len(),
            bootloader_items: self.bootloader_state.cursor().items,
            snapshots: self.snapshots.len(),
        }
    }
}

impl Vm<HistoryEnabled> {
    /// Captures the instance and puts the capture on the stack of snapshots.
    pub fn make_snapshot(&mut self)
        requires
            old(self).wf(),
        ensures
            final(self).wf(),
            final(self)@ == (VmView {
                snapshots: old(self)@.snapshots.push(old(self)@.capture()),
                ..old(self)@
            }),
    {
        proof {
            self.state.lemma_wf();
        }
        let snapshot = VmSnapshot {
            state: self.state.capture(),
            bootloader: self.bootloader_state.cursor(),
        };
        proof {
            assert(self.snapshots@.push(snapshot).map_values(|snapshot: VmSnapshot| snapshot@)
                =~= self@.snapshots.push(snapshot@));
        }
        self.snapshots.push(snapshot);
    }

    /// Takes the topmost snapshot off the stack and puts it back: the
    /// execution state is as captured, the storage log is cut to the
    /// captured length, and the bootloader stands where it stood.
    ///
    /// There must be a snapshot: to ask without one is a fault of the
    /// caller, and the program stops on it.
    pub fn rollback_to_the_latest_snapshot(&mut self)
        requires
            old(self).wf(),
            old(self)@.snapshots.len() > 0,
        ensures
            final(self).wf(),
            final(self)@ == old(self)@.rolled_back(),
    {
        let ghost before = self@.snapshots;
        let snapshot = self.snapshots.pop().unwrap();
        proof {
            assert(self@.snapshots =~= before.drop_last());
            assert(before[before.len() - 1].within(
                old(self)@.state.storage.log.len(),
                old(self)@.bootloader.items.len(),
            ));
        }
        self.state.restore(snapshot.state);
        self.bootloader_state.rewind(snapshot.bootloader);
        proof {
            self.state.lemma_wf();
        }
    }

    /// As `rollback_to_the_latest_snapshot`, for a caller that cannot know
    /// whether there is a snapshot: without one nothing changes, and the
    /// fault is reported.
    pub fn try_rollback_to_the_latest_snapshot(&mut self) -> (result: Result<
        (),
        InvariantViolation,
    >)
        requires
            old(self).wf(),
        ensures
            final(self).wf(),
            result is Ok <==> old(self)@.snapshots.len() > 0,
            result is Ok ==> final(self)@ == old(self)@.rolled_back(),
            result is Err ==> final(self)@ == old(self)@,
    {
        if self.snapshots.len() == 0 {
            Err(InvariantViolation::NoSnapshot)
        } else {
            self.rollback_to_the_latest_snapshot();
            Ok(())
        }
    }

    /// Takes the topmost snapshot off the stack and drops it. Nothing else
    /// changes; without a snapshot nothing changes at all.
    pub fn pop_snapshot_no_rollback(&mut self)
        requires
            old(self).wf(),
        ensures
            final(self).wf(),
            final(self)@ == (VmView {
                snapshots: if old(self)@.snapshots.len() > 0 {
                    old(self)@.snapshots.drop_last()
                } else {
                    old(self)@.snapshots
                },
                ..old(self)@
            }),
    {
        let ghost before = self@.snapshots;
        self.snapshots.pop();
        proof {
            if before.len() > 0 {
                assert(self@.snapshots =~= before.drop_last());
            }
        }
    }

    /// The number of snapshots on the stack.
    pub fn snapshot_depth(&self) -> (depth: usize)
        ensures
            depth == self@.snapshots.len(),
    {
        self.snapshots.len()
    }
}

} // verus!
