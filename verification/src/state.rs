//! The execution state: the call stack with its gas, composed with the
//! storage oracle and the event sink, and the interpreter that advances it
//! one instruction, and one transaction, at a time.

use crate::bootloader::{BootloaderTx, BootloaderTxView};
use crate::events::{EventSink, EventSinkView};
use crate::results::{Halt, TxOutcome};
use crate::storage::{
    log_after_revert, pending_of, read_entry, refund_for, valid_log, value_of, write_entry,
    InMemoryStorage, StorageKey, StorageLogQuery, StorageOracle, StorageOracleView,
};
use crate::transaction::{
    gas_cost, instruction_gas, known_code_key, FactoryDep, FactoryDepView, Instruction,
    TransactionView, INTRINSIC_GAS, KNOWN_CODES_ADDRESS,
};
use std::rc::Rc;
use vstd::prelude::*;

verus! {

/// The account in whose name outbound messages are recorded.
pub const MESSENGER_ADDRESS: u64 = 0x8008;

/// One frame of the call stack.
#[derive(Clone, Copy, Debug, PartialEq, Eq, Structural)]
pub struct CallFrame {
    /// The gas that the frame has left. While a nested frame runs, the gas
    /// is with that frame.
    pub gas_remaining: u32,
    /// How many writes were pending when the frame was opened.
    pub pending_start: usize,
    /// The frame's identity in the event sink.
    pub event_frame: usize,
}

/// What the execution of one transaction amounts to.
#[derive(Clone, Copy, Debug, PartialEq, Eq, Structural)]
pub struct TxReport {
    pub outcome: TxOutcome,
    pub gas_used: u32,
    pub gas_refunded: u32,
}

/// What the execution state is, to its users.
pub struct ExecutionStateView {
    pub callstack: Seq<CallFrame>,
    pub storage: StorageOracleView,
    pub sink: EventSinkView,
    pub used_contracts: Seq<u64>,
}

/// What one instruction does.
pub struct StepResult {
    pub state: ExecutionStateView,
    /// How the transaction ended, if the instruction ended it.
    pub outcome: Option<TxOutcome>,
    pub refund: u32,
}

/// What the instructions of a transaction do.
pub struct RunResult {
    pub state: ExecutionStateView,
    pub outcome: TxOutcome,
    pub refunded: nat,
}

/// What the execution of a transaction does.
pub struct TxResult {
    pub state: ExecutionStateView,
    pub report: TxReport,
}

/// Whether a referenced bytecode may be published: always where compression
/// is not enforced, else only if its compressed form came with it.
pub open spec fn publishable(dep: FactoryDepView, enforce_compression: bool) -> bool {
    !enforce_compression || dep.compressed is Some
}

/// The log after the publishable bytecodes among `deps` that were not known
/// have been marked as known, in their order.
pub open spec fn log_after_publishing(
    backing: Map<StorageKey, u64>,
    log: Seq<StorageLogQuery>,
    deps: Seq<FactoryDepView>,
    enforce_compression: bool,
    tx_number: u64,
) -> Seq<StorageLogQuery>
    decreases deps.len(),
{
    if deps.len() == 0 {
        log
    } else {
        let before = log_after_publishing(
            backing,
            log,
            deps.drop_last(),
            enforce_compression,
            tx_number,
        );
        let key = known_code_key(deps.last().hash);
        if publishable(deps.last(), enforce_compression) && value_of(backing, before, key) == 0 {
            before.push(write_entry(backing, before, tx_number, key, 1))
        } else {
            before
        }
    }
}

/// Whether some bytecode among `deps` is not known.
pub open spec fn some_unpublished(
    backing: Map<StorageKey, u64>,
    log: Seq<StorageLogQuery>,
    deps: Seq<FactoryDepView>,
) -> bool {
    exists|i: int|
        0 <= i < deps.len() && value_of(backing, log, known_code_key((#[trigger] deps[i]).hash))
            == 0
}

/// The contracts used so far, with `contract` among them.
pub open spec fn with_contract(used: Seq<u64>, contract: u64) -> Seq<u64> {
    if used.contains(contract) {
        used
    } else {
        used.push(contract)
    }
}

impl ExecutionStateView {
    /// The state's invariant: there is a call frame, the sink and the log
    /// are in order, and every frame is known to the sink.
    pub open spec fn wf(self) -> bool {
        &&& self.callstack.len() >= 1
        &&& self.sink.wf()
        &&& valid_log(self.storage.backing, self.storage.log)
        &&& forall|i: int|
            0 <= i < self.callstack.len() ==> (#[trigger] self.callstack[i]).event_frame
                < self.sink.frames.len()
    }

    /// Whether `later` may come after this state in a batch: over the same
    /// backing store, with nothing taken from the log or the sink.
    pub open spec fn grows_to(self, later: ExecutionStateView) -> bool {
        &&& later.storage.backing == self.storage.backing
        &&& self.storage.log.len() <= later.storage.log.len()
        &&& self.sink.events.len() <= later.sink.events.len()
        &&& self.sink.frames.len() <= later.sink.frames.len()
    }

    pub open spec fn top(self) -> CallFrame {
        self.callstack.last()
    }

    pub open spec fn with_log(self, log: Seq<StorageLogQuery>) -> ExecutionStateView {
        ExecutionStateView { storage: StorageOracleView { log, ..self.storage }, ..self }
    }

    pub open spec fn with_sink(self, sink: EventSinkView) -> ExecutionStateView {
        ExecutionStateView { sink, ..self }
    }

    /// The state with the gas of the current frame set.
    pub open spec fn with_top_gas(self, gas: u32) -> ExecutionStateView {
        ExecutionStateView {
            callstack: self.callstack.update(
                self.callstack.len() - 1,
                CallFrame { gas_remaining: gas, ..self.top() },
            ),
            ..self
        }
    }

    /// The state after the current frame has been left with `gas`.
    pub open spec fn leave_frame(self, gas: u32) -> ExecutionStateView {
        ExecutionStateView { callstack: self.callstack.drop_last(), ..self }.with_top_gas(gas)
    }

    /// The state after a frame has been opened with `gas`.
    pub open spec fn enter_frame(self, gas: u32) -> ExecutionStateView {
        ExecutionStateView {
            callstack: self.callstack.push(
                CallFrame {
                    gas_remaining: gas,
                    pending_start: pending_of(self.storage.log).len() as usize,
                    event_frame: self.sink.frames.len() as usize,
                },
            ),
            sink: self.sink.with_frame(Some(self.top().event_frame)),
            ..self
        }
    }

    /// The state after what `frame` did has been undone.
    pub open spec fn undo_frame(self, frame: CallFrame, tx_number: u64) -> ExecutionStateView {
        self.with_log(
            log_after_revert(self.storage.log, frame.pending_start as int, tx_number),
        ).with_sink(self.sink.with_reverted(frame.event_frame as int))
    }

    /// What `instruction` does in the current frame.
    pub open spec fn step(self, instruction: Instruction, tx_number: u64) -> StepResult {
        let top = self.top();
        let cost = gas_cost(instruction);
        if top.gas_remaining < cost {
            StepResult { state: self, outcome: Some(TxOutcome::OutOfGas), refund: 0 }
        } else {
            let gas = (top.gas_remaining - cost) as u32;
            let charged = self.with_top_gas(gas);
            let log = self.storage.log;
            let backing = self.storage.backing;
            match instruction {
                Instruction::Read { key } => StepResult {
                    state: charged.with_log(log.push(read_entry(backing, log, tx_number, key))),
                    outcome: None,
                    refund: 0,
                },
                Instruction::Write { key, value } => StepResult {
                    state: charged.with_log(
                        log.push(write_entry(backing, log, tx_number, key, value)),
                    ),
                    outcome: None,
                    refund: refund_for(log, key),
                },
                Instruction::Emit { address, topic, value } => StepResult {
                    state: charged.with_sink(
                        self.sink.with_emission(
                            top.event_frame,
                            tx_number,
                            false,
                            address,
                            topic,
                            value,
                        ),
                    ),
                    outcome: None,
                    refund: 0,
                },
                Instruction::SendMessage { message_key, value } => StepResult {
                    state: charged.with_sink(
                        self.sink.with_emission(
                            top.event_frame,
                            tx_number,
                            true,
                            MESSENGER_ADDRESS,
                            message_key,
                            value,
                        ),
                    ),
                    outcome: None,
                    refund: 0,
                },
                Instruction::Call => StepResult {
                    state: self.enter_frame(gas),
                    outcome: None,
                    refund: 0,
                },
                Instruction::Return { value } => if self.callstack.len() > 2 {
                    StepResult { state: self.leave_frame(gas), outcome: None, refund: 0 }
                } else {
                    StepResult {
                        state: charged,
                        outcome: Some(TxOutcome::Success { output: Some(value) }),
                        refund: 0,
                    }
                },
                Instruction::Revert { value } => if self.callstack.len() > 2 {
                    StepResult {
                        state: self.undo_frame(top, tx_number).leave_frame(gas),
                        outcome: None,
                        refund: 0,
                    }
                } else {
                    StepResult {
                        state: charged,
                        outcome: Some(TxOutcome::Revert { value }),
                        refund: 0,
                    }
                },
                Instruction::Invalid => StepResult {
                    state: charged,
                    outcome: Some(TxOutcome::Halted { reason: Halt::UnexpectedVmBehavior }),
                    refund: 0,
                },
            }
        }
    }

    /// What the instructions of `program` from `pc` on do.
    pub open spec fn run(
        self,
        program: Seq<Instruction>,
        pc: int,
        tx_number: u64,
        refunded: nat,
    ) -> RunResult
        decreases program.len() - pc,
    {
        if pc < 0 || pc >= program.len() {
            RunResult { state: self, outcome: TxOutcome::Success { output: None }, refunded }
        } else {
            let stepped = self.step(program[pc], tx_number);
            match stepped.outcome {
                Some(outcome) => RunResult {
                    state: stepped.state,
                    outcome,
                    refunded: refunded + stepped.refund as nat,
                },
                None => stepped.state.run(
                    program,
                    pc + 1,
                    tx_number,
                    refunded + stepped.refund as nat,
                ),
            }
        }
    }

    /// Why the transaction cannot be run, if it cannot.
    pub open spec fn validate(self, tx: TransactionView, base_fee: u64, max_words: u64) -> Option<
        Halt,
    > {
        if tx.encoded_words() > max_words {
            Some(Halt::TransactionTooLarge)
        } else if tx.gas_limit < INTRINSIC_GAS {
            Some(Halt::GasLimitTooLow)
        } else if tx.max_fee_per_gas < base_fee {
            Some(Halt::FeeTooLow)
        } else if self.callstack[0].gas_remaining < tx.gas_limit {
            Some(Halt::BatchGasExhausted)
        } else {
            None
        }
    }

    /// The state in which the instructions of a valid transaction start: the
    /// batch has handed the transaction its gas, and the transaction's frame
    /// is open.
    pub open spec fn begin_tx(self, tx: TransactionView) -> ExecutionStateView {
        self.with_top_gas((self.callstack[0].gas_remaining - tx.gas_limit) as u32).enter_frame(
            (tx.gas_limit - INTRINSIC_GAS) as u32,
        )
    }

    /// The state after a transaction that ended with `outcome` has been
    /// wound up: unless it succeeded, what it did is undone; its frames are
    /// gone, and the gas it has left is back with the batch.
    pub open spec fn finish_tx(self, outcome: TxOutcome, tx_number: u64) -> ExecutionStateView {
        let undone = if outcome is Success {
            self
        } else {
            self.undo_frame(self.callstack[1], tx_number)
        };
        ExecutionStateView {
            callstack: seq![
                CallFrame {
                    gas_remaining: (self.callstack[0].gas_remaining
                        + self.top().gas_remaining) as u32,
                    ..self.callstack[0]
                },
            ],
            ..undone
        }
    }

    /// The state after a transaction that did not halt has left its mark:
    /// its bytecodes are published as far as they may be, and its contract
    /// counts as used.
    pub open spec fn settle_tx(self, entry: BootloaderTxView, tx_number: u64)
        -> ExecutionStateView {
        ExecutionStateView {
            used_contracts: with_contract(self.used_contracts, entry.tx.contract),
            ..self.with_log(
                log_after_publishing(
                    self.storage.backing,
                    self.storage.log,
                    entry.tx.factory_deps,
                    entry.enforce_compression,
                    tx_number,
                ),
            )
        }
    }

    /// What the execution of a transaction does.
    pub open spec fn execute_tx(
        self,
        entry: BootloaderTxView,
        tx_number: u64,
        base_fee: u64,
        max_words: u64,
    ) -> TxResult {
        match self.validate(entry.tx, base_fee, max_words) {
            Some(reason) => TxResult {
                state: self,
                report: TxReport {
                    outcome: TxOutcome::Halted { reason },
                    gas_used: 0,
                    gas_refunded: 0,
                },
            },
            None => {
                let ran = self.begin_tx(entry.tx).run(entry.tx.program, 0, tx_number, 0);
                let finished = ran.state.finish_tx(ran.outcome, tx_number);
                TxResult {
                    state: if ran.outcome is Halted {
                        finished
                    } else {
                        finished.settle_tx(entry, tx_number)
                    },
                    report: TxReport {
                        outcome: ran.outcome,
                        gas_used: (entry.tx.gas_limit - ran.state.top().gas_remaining) as u32,
                        gas_refunded: ran.refunded as u32,
                    },
                }
            },
        }
    }

    /// Whether a bytecode that the transaction refers to is not published.
    pub open spec fn has_unpublished(self, entry: BootloaderTxView) -> bool {
        some_unpublished(self.storage.backing, self.storage.log, entry.tx.factory_deps)
    }
}

/// What a snapshot keeps of the execution state: the call stack, the event
/// sink and the used contracts as they are, and of the storage oracle the
/// length of its log.
pub struct StateSnapshot {
    callstack: Vec<CallFrame>,
    sink: EventSink,
    used_contracts: Vec<u64>,
    storage_log_len: usize,
}

pub struct StateSnapshotView {
    pub callstack: Seq<CallFrame>,
    pub sink: EventSinkView,
    pub used_contracts: Seq<u64>,
    pub storage_log_len: nat,
}

impl View for StateSnapshot {
    type V = StateSnapshotView;

    closed spec fn view(&self) -> StateSnapshotView {
        StateSnapshotView {
            callstack: self.callstack@,
            sink: self.sink@,
            used_contracts: self.used_contracts@,
            storage_log_len: self.storage_log_len as nat,
        }
    }
}

impl StateSnapshotView {
    pub open spec fn wf(self) -> bool {
        &&& self.callstack.len() == 1
        &&& self.sink.wf()
        &&& self.callstack[0].event_frame < self.sink.frames.len()
    }

    /// Whether the snapshot is one of `state`.
    pub open spec fn captures(self, state: ExecutionStateView) -> bool {
        &&& self.callstack == state.callstack
        &&& self.sink == state.sink
        &&& self.used_contracts == state.used_contracts
        &&& self.storage_log_len == state.storage.log.len()
    }

    /// The state to which the snapshot takes `state` back.
    pub open spec fn restore(self, state: ExecutionStateView) -> ExecutionStateView {
        ExecutionStateView {
            callstack: self.callstack,
            sink: self.sink,
            used_contracts: self.used_contracts,
            storage: StorageOracleView {
                log: if self.storage_log_len <= state.storage.log.len() {
                    state.storage.log.take(self.storage_log_len as int)
                } else {
                    state.storage.log
                },
                ..state.storage
            },
        }
    }
}

/// The interpreter's state.
pub struct ExecutionState {
    callstack: Vec<CallFrame>,
    storage: StorageOracle,
    sink: EventSink,
    used_contracts: Vec<u64>,
}

impl View for ExecutionState {
    type V = ExecutionStateView;

    closed spec fn view(&self) -> ExecutionStateView {
        ExecutionStateView {
            callstack: self.callstack@,
            storage: self.storage@,
            sink: self.sink@,
            used_contracts: self.used_contracts@,
        }
    }
}

impl ExecutionState {
    pub closed spec fn wf(&self) -> bool {
        self.storage.wf() && self@.wf()
    }

    pub proof fn lemma_wf(&self)
        requires
            self.wf(),
        ensures
            self@.wf(),
    {
    }

    /// The state at the start of a batch: one frame, that of the batch, with
    /// all the batch's gas; nothing accessed, nothing emitted.
    pub fn new(backing: Rc<InMemoryStorage>, batch_gas_limit: u32) -> (state: Self)
        ensures
            state.wf(),
            state@.callstack == seq![
                CallFrame { gas_remaining: batch_gas_limit, pending_start: 0, event_frame: 0 },
            ],
            state@.storage.backing == backing@,
            state@.storage.log.len() == 0,
            state@.sink.events.len() == 0,
            state@.sink.frames.len() == 1,
            state@.used_contracts.len() == 0,
    {
        let mut sink = EventSink::new();
        let root = sink.open_frame(None);
        let mut callstack: Vec<CallFrame> = Vec::new();
        callstack.push(
            CallFrame { gas_remaining: batch_gas_limit, pending_start: 0, event_frame: root },
        );
        let state = ExecutionState {
            callstack,
            storage: StorageOracle::new(backing),
            sink,
            used_contracts: Vec::new(),
        };
        state
    }

    /// The gas that the current call frame has left.
    pub fn gas_remaining(&self) -> (gas: u32)
        requires
            self.wf(),
        ensures
            gas == self@.top().gas_remaining,
    {
        self.callstack[self.callstack.len() - 1].gas_remaining
    }

    pub fn storage(&self) -> (oracle: &StorageOracle)
        requires
            self.wf(),
        ensures
            oracle.wf(),
            oracle@ == self@.storage,
    {
        &self.storage
    }

    pub fn event_sink(&self) -> (sink: &EventSink)
        requires
            self.wf(),
        ensures
            sink@ == self@.sink,
            sink@.wf(),
    {
        &self.sink
    }

    /// A copy of the contracts used so far.
    pub fn used_contracts(&self) -> (used: Vec<u64>)
        ensures
            used@ == self@.used_contracts,
    {
        self.used_contracts.clone()
    }

    pub fn callstack_depth(&self) -> (depth: usize)
        ensures
            depth == self@.callstack.len(),
    {
        self.callstack.len()
    }

    fn set_top_gas(&mut self, gas: u32)
        requires
            old(self).wf(),
        ensures
            final(self).wf(),
            old(self)@.grows_to(final(self)@),
            final(self)@ == old(self)@.with_top_gas(gas),
    {
        let last = self.callstack.len() - 1;
        let top = self.callstack[last];
        self.callstack.set(last, CallFrame { gas_remaining: gas, ..top });
    }

    fn enter_frame(&mut self, gas: u32)
        requires
            old(self).wf(),
        ensures
            final(self).wf(),
            old(self)@.grows_to(final(self)@),
            final(self)@ == old(self)@.enter_frame(gas),
    {
        let top = self.callstack[self.callstack.len() - 1];
        let event_frame = self.sink.open_frame(Some(top.event_frame));
        let pending_start = self.storage.pending_depth();
        self.callstack.push(CallFrame { gas_remaining: gas, pending_start, event_frame });
    }

    fn undo_frame(&mut self, frame: CallFrame, tx_number: u64)
        requires
            old(self).wf(),
            frame.event_frame < old(self)@.sink.frames.len(),
        ensures
            final(self).wf(),
            old(self)@.grows_to(final(self)@),
            final(self)@ == old(self)@.undo_frame(frame, tx_number),
    {
        self.storage.revert_to_depth(frame.pending_start, tx_number);
        self.sink.mark_reverted(frame.event_frame);
        proof {
            self.storage.lemma_wf_valid();
        }
    }

    fn leave_frame(&mut self, gas: u32)
        requires
            old(self).wf(),
            old(self)@.callstack.len() >= 2,
        ensures
            final(self).wf(),
            old(self)@.grows_to(final(self)@),
            final(self)@ == old(self)@.leave_frame(gas),
    {
        self.callstack.pop();
        self.set_top_gas(gas);
    }

    /// Executes one instruction in the current frame of a transaction.
    fn step(&mut self, instruction: Instruction, tx_number: u64) -> (result: (
        Option<TxOutcome>,
        u32,
    ))
        requires
            old(self).wf(),
            old(self)@.callstack.len() >= 2,
        ensures
            final(self).wf(),
            old(self)@.grows_to(final(self)@),
            final(self)@.callstack.len() >= 2,
            final(self)@ == old(self)@.step(instruction, tx_number).state,
            result.0 == old(self)@.step(instruction, tx_number).outcome,
            result.1 == old(self)@.step(instruction, tx_number).refund,
            final(self)@.top().gas_remaining + result.1 <= old(self)@.top().gas_remaining,
            final(self)@.callstack[0] == old(self)@.callstack[0],
            final(self)@.callstack[1].pending_start == old(self)@.callstack[1].pending_start,
            final(self)@.callstack[1].event_frame == old(self)@.callstack[1].event_frame,
    {
        let top = self.callstack[self.callstack.len() - 1];
        let cost = instruction_gas(&instruction);
        if top.gas_remaining < cost {
            return (Some(TxOutcome::OutOfGas), 0);
        }
        let gas: u32 = top.gas_remaining - cost;
        match instruction {
            Instruction::Read { key } => {
                self.set_top_gas(gas);
                self.storage.read(key, tx_number);
                proof {
                    self.storage.lemma_wf_valid();
                }
                (None, 0)
            },
            Instruction::Write { key, value } => {
                self.set_top_gas(gas);
                let refund = self.storage.write(key, value, tx_number);
                proof {
                    self.storage.lemma_wf_valid();
                }
                (None, refund)
            },
            Instruction::Emit { address, topic, value } => {
                self.set_top_gas(gas);
                self.sink.emit(top.event_frame, tx_number, false, address, topic, value);
                (None, 0)
            },
            Instruction::SendMessage { message_key, value } => {
                self.set_top_gas(gas);
                self.sink.emit(
                    top.event_frame,
                    tx_number,
                    true,
                    MESSENGER_ADDRESS,
                    message_key,
                    value,
                );
                (None, 0)
            },
            Instruction::Call => {
                self.enter_frame(gas);
                (None, 0)
            },
            Instruction::Return { value } => {
                if self.callstack.len() > 2 {
                    self.leave_frame(gas);
                    (None, 0)
                } else {
                    self.set_top_gas(gas);
                    (Some(TxOutcome::Success { output: Some(value) }), 0)
                }
            },
            Instruction::Revert { value } => {
                if self.callstack.len() > 2 {
                    self.undo_frame(top, tx_number);
                    self.leave_frame(gas);
                    (None, 0)
                } else {
                    self.set_top_gas(gas);
                    (Some(TxOutcome::Revert { value }), 0)
                }
            },
            Instruction::Invalid => {
                self.set_top_gas(gas);
                (Some(TxOutcome::Halted { reason: Halt::UnexpectedVmBehavior }), 0)
            },
        }
    }

    /// Executes the instructions of a transaction whose frame is open.
    fn run(&mut self, program: &Vec<Instruction>, tx_number: u64) -> (result: (TxOutcome, u32))
        requires
            old(self).wf(),
            old(self)@.callstack.len() >= 2,
        ensures
            final(self).wf(),
            old(self)@.grows_to(final(self)@),
            final(self)@.callstack.len() >= 2,
            final(self)@ == old(self)@.run(program@, 0, tx_number, 0).state,
            result.0 == old(self)@.run(program@, 0, tx_number, 0).outcome,
            result.1 == old(self)@.run(program@, 0, tx_number, 0).refunded,
            final(self)@.top().gas_remaining + result.1 <= old(self)@.top().gas_remaining,
            final(self)@.callstack[0] == old(self)@.callstack[0],
            final(self)@.callstack[1].pending_start == old(self)@.callstack[1].pending_start,
            final(self)@.callstack[1].event_frame == old(self)@.callstack[1].event_frame,
    {
        let mut refunded: u32 = 0;
        let mut pc: usize = 0;
        while pc < program.len()
            invariant
                self.wf(),
                old(self)@.grows_to(self@),
                self@.callstack.len() >= 2,
                pc <= program.len(),
                old(self)@.run(program@, 0, tx_number, 0) == self@.run(
                    program@,
                    pc as int,
                    tx_number,
                    refunded as nat,
                ),
                self@.top().gas_remaining + refunded <= old(self)@.top().gas_remaining,
                self@.callstack[0] == old(self)@.callstack[0],
                self@.callstack[1].pending_start == old(self)@.callstack[1].pending_start,
                self@.callstack[1].event_frame == old(self)@.callstack[1].event_frame,
            decreases program.len() - pc,
        {
            let (outcome, refund) = self.step(program[pc], tx_number);
            refunded = refunded + refund;
            match outcome {
                Some(outcome) => {
                    return (outcome, refunded);
                },
                None => {},
            }
            pc = pc + 1;
        }
        (TxOutcome::Success { output: None }, refunded)
    }

    /// Winds up a transaction that ended with `outcome`.
    fn finish_tx(&mut self, outcome: TxOutcome, tx_number: u64)
        requires
            old(self).wf(),
            old(self)@.callstack.len() >= 2,
            old(self)@.callstack[0].gas_remaining + old(self)@.top().gas_remaining <= u32::MAX,
        ensures
            final(self).wf(),
            old(self)@.grows_to(final(self)@),
            final(self)@ == old(self)@.finish_tx(outcome, tx_number),
    {
        let batch_frame = self.callstack[0];
        let tx_frame = self.callstack[1];
        let left = self.callstack[self.callstack.len() - 1].gas_remaining;
        match outcome {
            TxOutcome::Success { .. } => {},
            _ => {
                self.undo_frame(tx_frame, tx_number);
            },
        }
        self.callstack.truncate(1);
        self.callstack.set(
            0,
            CallFrame { gas_remaining: batch_frame.gas_remaining + left, ..batch_frame },
        );
        proof {
            assert(self@.callstack =~= old(self)@.finish_tx(outcome, tx_number).callstack);
        }
    }

    /// Marks the publishable bytecodes among `deps` as known.
    fn publish(&mut self, deps: &Vec<FactoryDep>, enforce_compression: bool, tx_number: u64)
        requires
            old(self).wf(),
        ensures
            final(self).wf(),
            old(self)@.grows_to(final(self)@),
            final(self)@ == old(self)@.with_log(
                log_after_publishing(
                    old(self)@.storage.backing,
                    old(self)@.storage.log,
                    deps@.map_values(|dep: FactoryDep| dep@),
                    enforce_compression,
                    tx_number,
                ),
            ),
    {
        let ghost views = deps@.map_values(|dep: FactoryDep| dep@);
        let ghost backing = self@.storage.backing;
        let ghost log = self@.storage.log;
        let mut i: usize = 0;
        while i < deps.len()
            invariant
                self.wf(),
                old(self)@.grows_to(self@),
                i <= deps.len(),
                views == deps@.map_values(|dep: FactoryDep| dep@),
                backing == old(self)@.storage.backing,
                log == old(self)@.storage.log,
                self@ == old(self)@.with_log(
                    log_after_publishing(
                        backing,
                        log,
                        views.take(i as int),
                        enforce_compression,
                        tx_number,
                    ),
                ),
            decreases deps.len() - i,
        {
            let dep = &deps[i];
            let key = StorageKey { address: KNOWN_CODES_ADDRESS, slot: dep.hash };
            proof {
                assert(views.take(i + 1).drop_last() =~= views.take(i as int));
            }
            if (!enforce_compression || dep.compressed.is_some()) && self.storage.peek(key) == 0 {
                self.storage.write(key, 1, tx_number);
                proof {
                    self.storage.lemma_wf_valid();
                }
            }
            i = i + 1;
        }
        proof {
            assert(views.take(i as int) =~= views);
        }
    }

    /// Counts `contract` among the used ones.
    fn note_contract(&mut self, contract: u64)
        requires
            old(self).wf(),
        ensures
            final(self).wf(),
            old(self)@.grows_to(final(self)@),
            final(self)@ == (ExecutionStateView {
                used_contracts: with_contract(old(self)@.used_contracts, contract),
                ..old(self)@
            }),
    {
        let mut i: usize = 0;
        while i < self.used_contracts.len()
            invariant
                i <= self.used_contracts.len(),
                self.wf(),
                self@ == old(self)@,
                forall|j: int| 0 <= j < i ==> self.used_contracts@[j] != contract,
            decreases self.used_contracts.len() - i,
        {
            if self.used_contracts[i] == contract {
                return ;
            }
            i = i + 1;
        }
        self.used_contracts.push(contract);
    }

    /// Whether a bytecode among `deps` is not published.
    pub fn has_unpublished(&self, deps: &Vec<FactoryDep>) -> (found: bool)
        requires
            self.wf(),
        ensures
            found == some_unpublished(
                self@.storage.backing,
                self@.storage.log,
                deps@.map_values(|dep: FactoryDep| dep@),
            ),
    {
        let ghost views = deps@.map_values(|dep: FactoryDep| dep@);
        let mut i: usize = 0;
        while i < deps.len()
            invariant
                self.wf(),
                i <= deps.len(),
                views == deps@.map_values(|dep: FactoryDep| dep@),
                forall|j: int|
                    0 <= j < i ==> value_of(
                        self@.storage.backing,
                        self@.storage.log,
                        known_code_key((#[trigger] views[j]).hash),
                    ) != 0,
            decreases deps.len() - i,
        {
            let key = StorageKey { address: KNOWN_CODES_ADDRESS, slot: deps[i].hash };
            if self.storage.peek(key) == 0 {
                proof {
                    assert(views[i as int].hash == deps@[i as int].hash);
                }
                return true;
            }
            i = i + 1;
        }
        false
    }

    /// Executes a transaction from validation to settlement.
    pub fn execute_tx(
        &mut self,
        entry: &BootloaderTx,
        tx_number: u64,
        base_fee: u64,
        max_words: u64,
    ) -> (report: TxReport)
        requires
            old(self).wf(),
            old(self)@.callstack.len() == 1,
        ensures
            final(self).wf(),
            old(self)@.grows_to(final(self)@),
            final(self)@.callstack.len() == 1,
            final(self)@ == old(self)@.execute_tx(entry@, tx_number, base_fee, max_words).state,
            report == old(self)@.execute_tx(entry@, tx_number, base_fee, max_words).report,
            report.gas_refunded <= report.gas_used <= entry@.tx.gas_limit,
            final(self)@.callstack[0].gas_remaining + report.gas_used
                == old(self)@.callstack[0].gas_remaining,
            final(self)@.callstack[0].pending_start == old(self)@.callstack[0].pending_start,
            final(self)@.callstack[0].event_frame == old(self)@.callstack[0].event_frame,
    {
        let tx = &entry.tx;
        let batch_gas = self.callstack[0].gas_remaining;
        if tx.exceeds(max_words) {
            return TxReport {
                outcome: TxOutcome::Halted { reason: Halt::TransactionTooLarge },
                gas_used: 0,
                gas_refunded: 0,
            };
        }
        if tx.gas_limit < INTRINSIC_GAS {
            return TxReport {
                outcome: TxOutcome::Halted { reason: Halt::GasLimitTooLow },
                gas_used: 0,
                gas_refunded: 0,
            };
        }
        if tx.max_fee_per_gas < base_fee {
            return TxReport {
                outcome: TxOutcome::Halted { reason: Halt::FeeTooLow },
                gas_used: 0,
                gas_refunded: 0,
            };
        }
        if batch_gas < tx.gas_limit {
            return TxReport {
                outcome: TxOutcome::Halted { reason: Halt::BatchGasExhausted },
                gas_used: 0,
                gas_refunded: 0,
            };
        }
        self.set_top_gas(batch_gas - tx.gas_limit);
        self.enter_frame(tx.gas_limit - INTRINSIC_GAS);
        let (outcome, refunded) = self.run(&tx.program, tx_number);
        let left = self.callstack[self.callstack.len() - 1].gas_remaining;
        self.finish_tx(outcome, tx_number);
        match outcome {
            TxOutcome::Halted { .. } => {},
            _ => {
                self.publish(&tx.factory_deps, entry.enforce_compression, tx_number);
                self.note_contract(tx.contract);
            },
        }
        TxReport { outcome, gas_used: tx.gas_limit - left, gas_refunded: refunded }
    }

    /// Captures the state for a later rollback.
    pub fn capture(&self) -> (snapshot: StateSnapshot)
        requires
            self.wf(),
        ensures
            snapshot@.captures(self@),
    {
        StateSnapshot {
            callstack: self.callstack.clone(),
            sink: self.sink.duplicate(),
            used_contracts: self.used_contracts.clone(),
            storage_log_len: self.storage.log_len(),
        }
    }

    /// Takes the state back to `snapshot`.
    pub fn restore(&mut self, snapshot: StateSnapshot)
        requires
            old(self).wf(),
            snapshot@.wf(),
        ensures
            final(self).wf(),
            final(self)@ == snapshot@.restore(old(self)@),
    {
        self.callstack = snapshot.callstack;
        self.sink = snapshot.sink;
        self.used_contracts = snapshot.used_contracts;
        self.storage.truncate_log(snapshot.storage_log_len);
        proof {
            self.storage.lemma_wf_valid();
        }
    }
}

} // verus!
