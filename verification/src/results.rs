//! What the engine hands back: the outcome of one run of the interpreter, and
//! the final view of a batch.

use crate::events::{UserL2ToL1Log, VmEvent};
use crate::storage::StorageLogQuery;
use crate::transaction::{word_bytes, word_to_bytes};
use vstd::prelude::*;

verus! {

/// Why the machine could not go on. A halted transaction cannot be included
/// in the batch.
#[derive(Clone, Copy, Debug, PartialEq, Eq, Structural)]
pub enum Halt {
    /// The encoded transaction is larger than the batch accepts.
    TransactionTooLarge,
    /// The gas limit does not cover the fixed work around a transaction.
    GasLimitTooLow,
    /// The fee offered is below the batch's base fee.
    FeeTooLow,
    /// The batch has less gas left than the transaction asks for.
    BatchGasExhausted,
    /// An instruction that cannot be executed was reached.
    UnexpectedVmBehavior,
}

/// Why a transaction undid its effects.
#[derive(Clone, Copy, Debug, PartialEq, Eq, Structural)]
pub enum RevertReason {
    /// The transaction asked for it.
    Requested,
    /// The gas ran out.
    OutOfGas,
}

/// How the execution of a transaction ended, before its output is laid out
/// in bytes.
#[derive(Clone, Copy, Debug, PartialEq, Eq, Structural)]
pub enum TxOutcome {
    /// It ran to its end, or returned `output` from its outermost frame.
    Success { output: Option<u64> },
    /// It reverted its outermost frame with `value`.
    Revert { value: u64 },
    /// It ran out of gas.
    OutOfGas,
    /// The machine halted.
    Halted { reason: Halt },
}

/// The tagged outcome of a run of the interpreter.
#[derive(Debug)]
#[allow(inconsistent_fields)]
pub enum ExecutionResult {
    Success { output: Vec<u8> },
    Revert { reason: RevertReason, output: Vec<u8> },
    Halt { reason: Halt },
}

#[allow(inconsistent_fields)]
pub enum ExecutionResultView {
    Success { output: Seq<u8> },
    Revert { reason: RevertReason, output: Seq<u8> },
    Halt { reason: Halt },
}

impl View for ExecutionResult {
    type V = ExecutionResultView;

    open spec fn view(&self) -> ExecutionResultView {
        match self {
            ExecutionResult::Success { output } => ExecutionResultView::Success {
                output: output@,
            },
            ExecutionResult::Revert { reason, output } => ExecutionResultView::Revert {
                reason: *reason,
                output: output@,
            },
            ExecutionResult::Halt { reason } => ExecutionResultView::Halt { reason: *reason },
        }
    }
}

/// The tagged outcome that stands for `outcome`.
pub open spec fn result_of(outcome: TxOutcome) -> ExecutionResultView {
    match outcome {
        TxOutcome::Success { output: Some(value) } => ExecutionResultView::Success {
            output: word_bytes(value),
        },
        TxOutcome::Success { output: None } => ExecutionResultView::Success {
            output: Seq::empty(),
        },
        TxOutcome::Revert { value } => ExecutionResultView::Revert {
            reason: RevertReason::Requested,
            output: word_bytes(value),
        },
        TxOutcome::OutOfGas => ExecutionResultView::Revert {
            reason: RevertReason::OutOfGas,
            output: Seq::empty(),
        },
        TxOutcome::Halted { reason } => ExecutionResultView::Halt { reason },
    }
}

/// Lays out the outcome of a transaction as a tagged result.
pub fn into_result(outcome: TxOutcome) -> (result: ExecutionResult)
    ensures
        result@ == result_of(outcome),
{
    match outcome {
        TxOutcome::Success { output: Some(value) } => ExecutionResult::Success {
            output: word_to_bytes(value),
        },
        TxOutcome::Success { output: None } => ExecutionResult::Success { output: Vec::new() },
        TxOutcome::Revert { value } => ExecutionResult::Revert {
            reason: RevertReason::Requested,
            output: word_to_bytes(value),
        },
        TxOutcome::OutOfGas => ExecutionResult::Revert {
            reason: RevertReason::OutOfGas,
            output: Vec::new(),
        },
        TxOutcome::Halted { reason } => ExecutionResult::Halt { reason },
    }
}

/// What a run of the interpreter used.
#[derive(Clone, Copy, Debug, PartialEq, Eq, Structural)]
pub struct VmExecutionStatistics {
    pub gas_used: u32,
    pub gas_refunded: u32,
    pub total_log_queries: usize,
}

/// What a run of the interpreter recorded.
#[derive(Debug)]
pub struct VmExecutionLogs {
    pub storage_logs: Vec<StorageLogQuery>,
    pub events: Vec<VmEvent>,
    pub user_l2_to_l1_logs: Vec<UserL2ToL1Log>,
}

pub struct VmExecutionLogsView {
    pub storage_logs: Seq<StorageLogQuery>,
    pub events: Seq<VmEvent>,
    pub user_l2_to_l1_logs: Seq<UserL2ToL1Log>,
}

impl View for VmExecutionLogs {
    type V = VmExecutionLogsView;

    open spec fn view(&self) -> VmExecutionLogsView {
        VmExecutionLogsView {
            storage_logs: self.storage_logs@,
            events: self.events@,
            user_l2_to_l1_logs: self.user_l2_to_l1_logs@,
        }
    }
}

/// The terminal outcome of one run of the interpreter.
#[derive(Debug)]
pub struct VmExecutionResultAndLogs {
    pub result: ExecutionResult,
    pub logs: VmExecutionLogs,
    pub statistics: VmExecutionStatistics,
}

pub struct VmExecutionResultAndLogsView {
    pub result: ExecutionResultView,
    pub logs: VmExecutionLogsView,
    pub statistics: VmExecutionStatistics,
}

impl View for VmExecutionResultAndLogs {
    type V = VmExecutionResultAndLogsView;

    open spec fn view(&self) -> VmExecutionResultAndLogsView {
        VmExecutionResultAndLogsView {
            result: self.result@,
            logs: self.logs@,
            statistics: self.statistics,
        }
    }
}

/// The one way in which bytecode compression fails.
#[derive(Clone, Copy, Debug, PartialEq, Eq, Structural)]
pub enum BytecodeCompressionError {
    BytecodeCompressionFailed,
}

/// The final view of a batch: what the surrounding system persists.
#[derive(Debug)]
pub struct CurrentExecutionState {
    pub events: Vec<VmEvent>,
    pub deduplicated_storage_logs: Vec<StorageLogQuery>,
    pub used_contract_hashes: Vec<u64>,
    pub user_l2_to_l1_logs: Vec<UserL2ToL1Log>,
    pub system_logs: Vec<UserL2ToL1Log>,
    pub storage_refunds: Vec<u32>,
    pub pubdata_costs: Vec<i32>,
}

/// The sizes of the engine's buffers, in entries.
#[derive(Clone, Copy, Debug, PartialEq, Eq, Structural)]
pub struct VmMemoryMetrics {
    pub event_sink_events: usize,
    pub event_sink_frames: usize,
    pub storage_log: usize,
    pub storage_pending: usize,
    pub callstack: usize,
    pub used_contracts: usize,
    pub bootloader_items: usize,
    pub snapshots: usize,
}

} // verus!
