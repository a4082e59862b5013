use batch_vm::call_trace::CallTracer;
use batch_vm::events::VmEvent;
use batch_vm::results::{BytecodeCompressionError, ExecutionResult, Halt, RevertReason};
use batch_vm::storage::{InMemoryStorage, StorageKey};
use batch_vm::tracer::{TraceEvent, Tracer, TracerDispatcher};
use batch_vm::transaction::{
    FactoryDep, Instruction, L1BatchEnv, L2BlockEnv, SystemEnv, Transaction, VmExecutionMode,
};
use batch_vm::vm::{HistoryDisabled, HistoryEnabled, InvariantViolation, Vm};
use std::rc::Rc;

struct Silent;

impl Tracer for Silent {
    fn notify(&mut self, _event: &TraceEvent) {}
}

struct Recorder {
    seen: Vec<TraceEvent>,
}

impl Tracer for Recorder {
    fn notify(&mut self, event: &TraceEvent) {
        self.seen.push(*event);
    }
}

fn batch_env() -> L1BatchEnv {
    L1BatchEnv {
        number: 7,
        timestamp: 1_000,
        base_fee: 10,
        first_l2_block: L2BlockEnv { number: 100, timestamp: 1_000 },
    }
}

fn system_env() -> SystemEnv {
    SystemEnv { chain_id: 270, batch_gas_limit: 1_000_000, max_encoded_tx_words: 10_000 }
}

fn tx_with(gas_limit: u32, program: Vec<Instruction>) -> Transaction {
    Transaction {
        initiator: 1,
        contract: 2,
        value: 5,
        gas_limit,
        max_fee_per_gas: 10,
        calldata: vec![0xaa, 0xbb],
        program,
        factory_deps: vec![],
    }
}

fn fresh_vm() -> Vm<HistoryEnabled> {
    Vm::new(batch_env(), system_env(), Rc::new(InMemoryStorage::new()))
}

fn silent() -> TracerDispatcher<Silent> {
    TracerDispatcher::new()
}

fn slot(address: u64, slot: u64) -> StorageKey {
    StorageKey { address, slot }
}

#[test]
fn transfer_succeeds_within_its_gas_limit() {
    let mut vm = fresh_vm();
    let mut dispatcher: TracerDispatcher<Recorder> = TracerDispatcher::new();
    dispatcher.attach(Recorder { seen: vec![] });
    vm.push_transaction(tx_with(5_000, vec![]));
    let result = vm.inspect(&mut dispatcher, VmExecutionMode::OneTx);
    match result.result {
        ExecutionResult::Success { output } => assert_eq!(output, Vec::<u8>::new()),
        other => panic!("expected success, got {:?}", other),
    }
    assert_eq!(result.statistics.gas_used, 1_000);
    assert!(result.statistics.gas_used <= 5_000);
    assert_eq!(result.statistics.gas_refunded, 0);
    assert_eq!(vm.gas_remaining(), 999_000);
    let tracers = dispatcher.into_tracers();
    let frames: Vec<&TraceEvent> = tracers[0]
        .seen
        .iter()
        .filter(|event| matches!(event, TraceEvent::Frame { .. }))
        .collect();
    assert_eq!(frames.len(), 1);
    assert_eq!(*frames[0], TraceEvent::Frame { frame: 1, parent: Some(0), reverted: false });
}

#[test]
fn halted_transaction_leaves_no_log_entries_after_rollback() {
    let mut vm = fresh_vm();
    let mut dispatcher = silent();
    vm.make_snapshot();
    let key = slot(9, 3);
    vm.push_transaction(tx_with(
        50_000,
        vec![Instruction::Write { key, value: 42 }, Instruction::Invalid],
    ));
    let result = vm.inspect(&mut dispatcher, VmExecutionMode::OneTx);
    assert!(matches!(
        result.result,
        ExecutionResult::Halt { reason: Halt::UnexpectedVmBehavior }
    ));
    assert_eq!(result.logs.storage_logs.len(), 2);
    assert!(result.logs.storage_logs[0].rw_flag && !result.logs.storage_logs[0].rollback);
    assert!(result.logs.storage_logs[1].rw_flag && result.logs.storage_logs[1].rollback);
    assert_eq!(vm.storage_log_len(), 2);
    vm.rollback_to_the_latest_snapshot();
    assert_eq!(vm.storage_log_len(), 0);
    assert_eq!(vm.snapshot_depth(), 0);
    assert_eq!(vm.gas_remaining(), 1_000_000);
    let state = vm.get_current_execution_state();
    assert_eq!(state.deduplicated_storage_logs.len(), 0);
    assert_eq!(state.storage_refunds.len(), 0);
    assert_eq!(vm.get_bootloader_memory(), vec![(0, 2), (1, 100), (2, 1_000)]);
}

#[test]
fn cancelled_writes_leave_no_deduplicated_entry() {
    let mut backing = InMemoryStorage::new();
    let key = slot(9, 3);
    backing.set_value(key, 11);
    let mut vm: Vm<HistoryEnabled> = Vm::new(batch_env(), system_env(), Rc::new(backing));
    let mut dispatcher = silent();
    vm.push_transaction(tx_with(
        50_000,
        vec![Instruction::Write { key, value: 42 }, Instruction::Write { key, value: 11 }],
    ));
    let result = vm.inspect(&mut dispatcher, VmExecutionMode::OneTx);
    assert!(matches!(result.result, ExecutionResult::Success { .. }));
    assert_eq!(result.statistics.gas_used, 1_400);
    assert_eq!(result.statistics.gas_refunded, 20);
    assert_eq!(result.statistics.total_log_queries, 2);
    let state = vm.get_current_execution_state();
    assert!(state.deduplicated_storage_logs.iter().all(|entry| entry.key != key));
    assert_eq!(state.deduplicated_storage_logs.len(), 0);
    assert_eq!(state.storage_refunds, vec![0, 20]);
    assert_eq!(state.used_contract_hashes, vec![2]);
}

#[test]
fn unpublished_bytecode_fails_compression_but_not_execution() {
    let deps = || vec![FactoryDep { hash: 77, compressed: None }];
    let mut with = fresh_vm();
    let mut tx = tx_with(5_000, vec![Instruction::Return { value: 3 }]);
    tx.factory_deps = deps();
    let (compression, result) =
        with.inspect_transaction_with_bytecode_compression(&mut silent(), tx, true);
    assert_eq!(compression, Err(BytecodeCompressionError::BytecodeCompressionFailed));
    let mut without = fresh_vm();
    let mut tx = tx_with(5_000, vec![Instruction::Return { value: 3 }]);
    tx.factory_deps = deps();
    let (plain_compression, plain) =
        without.inspect_transaction_with_bytecode_compression(&mut silent(), tx, false);
    assert_eq!(plain_compression, Ok(()));
    match (result.result, plain.result) {
        (
            ExecutionResult::Success { output: with_output },
            ExecutionResult::Success { output: plain_output },
        ) => {
            assert_eq!(with_output, vec![0, 0, 0, 0, 0, 0, 0, 3]);
            assert_eq!(with_output, plain_output);
        }
        other => panic!("expected two successes, got {:?}", other),
    }
    assert_eq!(result.statistics.gas_used, 1_005);
    assert_eq!(result.statistics.gas_used, plain.statistics.gas_used);
    assert_eq!(result.logs.storage_logs.len(), 0);
    assert_eq!(plain.logs.storage_logs.len(), 1);
    assert_eq!(plain.logs.storage_logs[0].key, slot(0x8004, 77));
    assert_eq!(plain.logs.storage_logs[0].written_value, 1);
    assert_eq!(with.get_last_tx_compressed_bytecodes().len(), 0);
}

#[test]
fn supplied_compressed_bytecode_is_published() {
    let mut vm = fresh_vm();
    let mut tx = tx_with(5_000, vec![]);
    tx.factory_deps = vec![
        FactoryDep { hash: 77, compressed: Some(vec![1, 2, 3]) },
        FactoryDep { hash: 78, compressed: Some(vec![4]) },
    ];
    let (compression, result) =
        vm.inspect_transaction_with_bytecode_compression(&mut silent(), tx, true);
    assert_eq!(compression, Ok(()));
    assert_eq!(result.logs.storage_logs.len(), 2);
    let accepted = vm.get_last_tx_compressed_bytecodes();
    assert_eq!(accepted.len(), 2);
    assert_eq!(accepted[0].hash, 77);
    assert_eq!(accepted[0].compressed, vec![1, 2, 3]);
    assert_eq!(accepted[1].hash, 78);
    let mut again = tx_with(5_000, vec![]);
    again.factory_deps = vec![FactoryDep { hash: 77, compressed: Some(vec![1, 2, 3]) }];
    let (compression, result) =
        vm.inspect_transaction_with_bytecode_compression(&mut silent(), again, true);
    assert_eq!(compression, Ok(()));
    assert_eq!(result.logs.storage_logs.len(), 0);
    assert_eq!(vm.get_last_tx_compressed_bytecodes().len(), 0);
}

#[test]
fn events_of_all_blocks_carry_the_batch_number() {
    let mut vm = fresh_vm();
    let mut dispatcher = silent();
    vm.push_transaction(tx_with(
        5_000,
        vec![Instruction::Emit { address: 4, topic: 1, value: 10 }],
    ));
    vm.inspect(&mut dispatcher, VmExecutionMode::OneTx);
    vm.start_new_l2_block(L2BlockEnv { number: 101, timestamp: 1_001 });
    vm.start_new_l2_block(L2BlockEnv { number: 102, timestamp: 1_002 });
    vm.push_transaction(tx_with(
        5_000,
        vec![
            Instruction::Emit { address: 4, topic: 2, value: 20 },
            Instruction::SendMessage { message_key: 6, value: 60 },
        ],
    ));
    let second = vm.inspect(&mut dispatcher, VmExecutionMode::OneTx);
    assert_eq!(
        second.logs.events,
        vec![VmEvent { batch_number: 7, tx_number: 1, address: 4, topic: 2, value: 20 }]
    );
    let state = vm.get_current_execution_state();
    assert_eq!(
        state.events,
        vec![
            VmEvent { batch_number: 7, tx_number: 0, address: 4, topic: 1, value: 10 },
            VmEvent { batch_number: 7, tx_number: 1, address: 4, topic: 2, value: 20 },
        ]
    );
    assert!(state.events.iter().all(|event| event.batch_number == 7));
    assert_eq!(state.user_l2_to_l1_logs.len(), 1);
    assert_eq!(state.user_l2_to_l1_logs[0].sender, 0x8008);
    assert_eq!(state.user_l2_to_l1_logs[0].key, 6);
    assert_eq!(state.user_l2_to_l1_logs[0].value, 60);
    assert_eq!(state.user_l2_to_l1_logs[0].tx_number, 1);
    assert_eq!(state.system_logs.len(), 0);
    assert_eq!(state.pubdata_costs.len(), 0);
    assert_eq!(
        vm.get_bootloader_memory()[..3].to_vec(),
        vec![(0, 2), (1, 100), (2, 1_000)]
    );
}

#[test]
fn events_of_reverted_frames_are_dropped() {
    let mut vm = fresh_vm();
    let mut dispatcher = silent();
    vm.push_transaction(tx_with(
        5_000,
        vec![
            Instruction::Emit { address: 4, topic: 1, value: 10 },
            Instruction::Call,
            Instruction::Emit { address: 4, topic: 2, value: 20 },
            Instruction::Call,
            Instruction::Emit { address: 4, topic: 3, value: 30 },
            Instruction::Return { value: 0 },
            Instruction::Revert { value: 0 },
            Instruction::Emit { address: 4, topic: 4, value: 40 },
        ],
    ));
    let result = vm.inspect(&mut dispatcher, VmExecutionMode::OneTx);
    assert!(matches!(result.result, ExecutionResult::Success { .. }));
    let topics: Vec<u64> = result.logs.events.iter().map(|event| event.topic).collect();
    assert_eq!(topics, vec![1, 4]);
    let state = vm.get_current_execution_state();
    let topics: Vec<u64> = state.events.iter().map(|event| event.topic).collect();
    assert_eq!(topics, vec![1, 4]);
}

#[test]
fn reverted_frame_undoes_its_writes_only() {
    let mut vm = fresh_vm();
    let mut dispatcher = silent();
    let kept = slot(1, 1);
    let undone = slot(1, 2);
    vm.push_transaction(tx_with(
        5_000,
        vec![
            Instruction::Write { key: kept, value: 5 },
            Instruction::Call,
            Instruction::Write { key: undone, value: 6 },
            Instruction::Write { key: kept, value: 7 },
            Instruction::Revert { value: 0 },
            Instruction::Read { key: kept },
        ],
    ));
    let result = vm.inspect(&mut dispatcher, VmExecutionMode::OneTx);
    assert!(matches!(result.result, ExecutionResult::Success { .. }));
    let logs = &result.logs.storage_logs;
    assert_eq!(logs.len(), 6);
    assert!(logs[3].rollback && logs[3].key == kept && logs[3].written_value == 7);
    assert!(logs[4].rollback && logs[4].key == undone && logs[4].written_value == 6);
    assert!(!logs[5].rw_flag && logs[5].read_value == 5);
    let timestamps: Vec<u64> = logs.iter().map(|entry| entry.timestamp).collect();
    assert_eq!(timestamps, vec![0, 1, 2, 3, 4, 5]);
    assert_eq!(result.statistics.gas_used, 1_000 + 200 + 100 + 200 + 200 + 5 + 50);
    assert_eq!(result.statistics.gas_refunded, 20);
    let state = vm.get_current_execution_state();
    assert_eq!(state.deduplicated_storage_logs.len(), 1);
    let entry = state.deduplicated_storage_logs[0];
    assert_eq!(entry.key, kept);
    assert_eq!(entry.read_value, 0);
    assert_eq!(entry.written_value, 5);
    assert!(entry.rw_flag && !entry.rollback);
    assert_eq!(entry.timestamp, 0);
    assert_eq!(state.storage_refunds, vec![0, 0, 20]);
}

#[test]
fn deduplicated_logs_come_in_the_order_of_the_slots() {
    let mut backing = InMemoryStorage::new();
    backing.set_value(slot(1, 5), 9);
    let mut vm: Vm<HistoryEnabled> = Vm::new(batch_env(), system_env(), Rc::new(backing));
    let mut dispatcher = silent();
    vm.push_transaction(tx_with(
        5_000,
        vec![
            Instruction::Write { key: slot(2, 1), value: 1 },
            Instruction::Write { key: slot(1, 5), value: 2 },
            Instruction::Write { key: slot(1, 2), value: 3 },
            Instruction::Write { key: slot(1, 5), value: 4 },
            Instruction::Read { key: slot(3, 3) },
        ],
    ));
    vm.inspect(&mut dispatcher, VmExecutionMode::OneTx);
    let state = vm.get_current_execution_state();
    let delta: Vec<(StorageKey, u64, u64)> = state
        .deduplicated_storage_logs
        .iter()
        .map(|entry| (entry.key, entry.read_value, entry.written_value))
        .collect();
    assert_eq!(
        delta,
        vec![(slot(1, 2), 0, 3), (slot(1, 5), 9, 4), (slot(2, 1), 0, 1)]
    );
}

#[test]
fn reverted_transaction_is_no_halt() {
    let mut vm = fresh_vm();
    let mut dispatcher = silent();
    vm.push_transaction(tx_with(
        5_000,
        vec![
            Instruction::Write { key: slot(1, 1), value: 5 },
            Instruction::Revert { value: 0x0102030405060708 },
        ],
    ));
    let result = vm.inspect(&mut dispatcher, VmExecutionMode::OneTx);
    match result.result {
        ExecutionResult::Revert { reason, output } => {
            assert_eq!(reason, RevertReason::Requested);
            assert_eq!(output, vec![1, 2, 3, 4, 5, 6, 7, 8]);
        }
        other => panic!("expected a revert, got {:?}", other),
    }
    assert_eq!(result.statistics.gas_used, 1_205);
    assert_eq!(result.logs.storage_logs.len(), 2);
    let state = vm.get_current_execution_state();
    assert_eq!(state.deduplicated_storage_logs.len(), 0);
    assert_eq!(state.used_contract_hashes, vec![2]);
}

#[test]
fn exhausted_gas_reverts_the_transaction() {
    let mut vm = fresh_vm();
    let mut dispatcher = silent();
    vm.push_transaction(tx_with(
        1_100,
        vec![Instruction::Write { key: slot(1, 1), value: 5 }],
    ));
    let result = vm.inspect(&mut dispatcher, VmExecutionMode::OneTx);
    match result.result {
        ExecutionResult::Revert { reason, output } => {
            assert_eq!(reason, RevertReason::OutOfGas);
            assert_eq!(output.len(), 0);
        }
        other => panic!("expected a revert, got {:?}", other),
    }
    assert_eq!(result.statistics.gas_used, 1_000);
    assert_eq!(result.logs.storage_logs.len(), 0);
    assert_eq!(vm.gas_remaining(), 999_000);
}

#[test]
fn every_instruction_costs_its_gas() {
    let mut vm = fresh_vm();
    let mut dispatcher = silent();
    vm.push_transaction(tx_with(
        5_000,
        vec![
            Instruction::Read { key: slot(1, 1) },
            Instruction::Write { key: slot(1, 1), value: 5 },
            Instruction::Emit { address: 1, topic: 1, value: 1 },
            Instruction::SendMessage { message_key: 1, value: 1 },
            Instruction::Call,
            Instruction::Return { value: 9 },
            Instruction::Return { value: 10 },
            Instruction::Invalid,
        ],
    ));
    let result = vm.inspect(&mut dispatcher, VmExecutionMode::OneTx);
    match result.result {
        ExecutionResult::Success { output } => assert_eq!(output, vec![0, 0, 0, 0, 0, 0, 0, 10]),
        other => panic!("expected success, got {:?}", other),
    }
    assert_eq!(result.statistics.gas_used, 1_000 + 50 + 200 + 30 + 30 + 100 + 5 + 5);
}

#[test]
fn validation_halts_name_their_reason() {
    let mut vm = fresh_vm();
    let mut dispatcher = silent();
    vm.push_transaction(tx_with(999, vec![]));
    let result = vm.inspect(&mut dispatcher, VmExecutionMode::OneTx);
    assert!(matches!(result.result, ExecutionResult::Halt { reason: Halt::GasLimitTooLow }));
    assert_eq!(result.statistics.gas_used, 0);

    let mut cheap = tx_with(5_000, vec![]);
    cheap.max_fee_per_gas = 9;
    vm.push_transaction(cheap);
    let result = vm.inspect(&mut dispatcher, VmExecutionMode::OneTx);
    assert!(matches!(result.result, ExecutionResult::Halt { reason: Halt::FeeTooLow }));

    vm.push_transaction(tx_with(1_000_001, vec![]));
    let result = vm.inspect(&mut dispatcher, VmExecutionMode::OneTx);
    assert!(matches!(result.result, ExecutionResult::Halt { reason: Halt::BatchGasExhausted }));

    let narrow = SystemEnv { chain_id: 270, batch_gas_limit: 1_000_000, max_encoded_tx_words: 11 };
    let mut small: Vm<HistoryDisabled> =
        Vm::new(batch_env(), narrow, Rc::new(InMemoryStorage::new()));
    small.push_transaction(tx_with(5_000, vec![Instruction::Call]));
    let result = small.inspect(&mut dispatcher, VmExecutionMode::OneTx);
    assert!(matches!(
        result.result,
        ExecutionResult::Halt { reason: Halt::TransactionTooLarge }
    ));
    small.push_transaction(tx_with(5_000, vec![]));
    let result = small.inspect(&mut dispatcher, VmExecutionMode::OneTx);
    assert!(matches!(result.result, ExecutionResult::Success { .. }));
    assert_eq!(vm.gas_remaining(), 1_000_000);
}

#[test]
fn inspect_without_pending_transaction_changes_nothing() {
    let mut vm = fresh_vm();
    let mut dispatcher = silent();
    let result = vm.inspect(&mut dispatcher, VmExecutionMode::OneTx);
    match result.result {
        ExecutionResult::Success { output } => assert_eq!(output.len(), 0),
        other => panic!("expected success, got {:?}", other),
    }
    assert_eq!(result.statistics.gas_used, 0);
    assert_eq!(vm.gas_remaining(), 1_000_000);
    let result = vm.inspect(&mut dispatcher, VmExecutionMode::Batch);
    assert!(matches!(result.result, ExecutionResult::Success { .. }));
}

#[test]
fn one_transaction_mode_consumes_exactly_one() {
    let mut vm = fresh_vm();
    let mut dispatcher = silent();
    vm.push_transaction(tx_with(2_000, vec![]));
    vm.push_transaction(tx_with(3_000, vec![Instruction::Read { key: slot(1, 1) }]));
    let first = vm.inspect(&mut dispatcher, VmExecutionMode::OneTx);
    assert_eq!(first.statistics.gas_used, 1_000);
    assert_eq!(first.logs.storage_logs.len(), 0);
    let second = vm.inspect(&mut dispatcher, VmExecutionMode::OneTx);
    assert_eq!(second.statistics.gas_used, 1_050);
    assert_eq!(second.logs.storage_logs.len(), 1);
    assert_eq!(second.logs.storage_logs[0].tx_number, 1);
    let third = vm.inspect(&mut dispatcher, VmExecutionMode::OneTx);
    assert_eq!(third.statistics.gas_used, 0);
}

#[test]
fn batch_mode_runs_until_a_halt() {
    let mut vm = fresh_vm();
    let mut dispatcher = silent();
    vm.push_transaction(tx_with(2_000, vec![Instruction::Write { key: slot(1, 1), value: 1 }]));
    vm.push_transaction(tx_with(2_000, vec![Instruction::Write { key: slot(1, 1), value: 2 }]));
    vm.push_transaction(tx_with(10, vec![]));
    vm.push_transaction(tx_with(2_000, vec![Instruction::Write { key: slot(1, 1), value: 3 }]));
    let result = vm.inspect(&mut dispatcher, VmExecutionMode::Batch);
    assert!(matches!(result.result, ExecutionResult::Halt { reason: Halt::GasLimitTooLow }));
    assert_eq!(result.statistics.gas_used, 2_400);
    assert_eq!(result.statistics.gas_refunded, 20);
    assert_eq!(result.logs.storage_logs.len(), 2);
    let rest = vm.inspect(&mut dispatcher, VmExecutionMode::Batch);
    assert!(matches!(rest.result, ExecutionResult::Success { .. }));
    assert_eq!(rest.statistics.gas_used, 1_200);
    assert_eq!(rest.statistics.gas_refunded, 20);
    let state = vm.get_current_execution_state();
    assert_eq!(state.deduplicated_storage_logs.len(), 1);
    assert_eq!(state.deduplicated_storage_logs[0].written_value, 3);
    assert_eq!(state.storage_refunds, vec![0, 20, 20]);
}

#[test]
fn rollback_restores_what_the_snapshot_captured() {
    let mut vm = fresh_vm();
    let mut dispatcher = silent();
    vm.push_transaction(tx_with(
        2_000,
        vec![
            Instruction::Write { key: slot(1, 1), value: 1 },
            Instruction::Emit { address: 1, topic: 1, value: 1 },
        ],
    ));
    vm.inspect(&mut dispatcher, VmExecutionMode::OneTx);
    let memory = vm.get_bootloader_memory();
    let gas = vm.gas_remaining();
    let metrics = vm.record_vm_memory_metrics();
    vm.make_snapshot();
    assert_eq!(vm.snapshot_depth(), 1);
    vm.start_new_l2_block(L2BlockEnv { number: 101, timestamp: 1_001 });
    let mut other = tx_with(
        2_000,
        vec![
            Instruction::Write { key: slot(1, 1), value: 2 },
            Instruction::Write { key: slot(1, 2), value: 3 },
            Instruction::Emit { address: 1, topic: 2, value: 2 },
        ],
    );
    other.contract = 3;
    vm.push_transaction(other);
    vm.inspect(&mut dispatcher, VmExecutionMode::OneTx);
    assert_eq!(vm.storage_log_len(), 3);
    vm.rollback_to_the_latest_snapshot();
    assert_eq!(vm.snapshot_depth(), 0);
    assert_eq!(vm.storage_log_len(), 1);
    assert_eq!(vm.gas_remaining(), gas);
    assert_eq!(vm.get_bootloader_memory(), memory);
    let after = vm.record_vm_memory_metrics();
    assert_eq!(after, metrics);
    let state = vm.get_current_execution_state();
    assert_eq!(state.events.len(), 1);
    assert_eq!(state.events[0].topic, 1);
    assert_eq!(state.deduplicated_storage_logs.len(), 1);
    assert_eq!(state.deduplicated_storage_logs[0].written_value, 1);
    assert_eq!(state.used_contract_hashes, vec![2]);
    assert_eq!(state.storage_refunds, vec![0]);
    vm.push_transaction(tx_with(2_000, vec![Instruction::Read { key: slot(1, 1) }]));
    let result = vm.inspect(&mut dispatcher, VmExecutionMode::OneTx);
    assert_eq!(result.logs.storage_logs[0].read_value, 1);
    assert_eq!(result.logs.storage_logs[0].timestamp, 1);
}

#[test]
fn popping_a_snapshot_leaves_the_state() {
    let mut vm = fresh_vm();
    let mut dispatcher = silent();
    vm.make_snapshot();
    vm.push_transaction(tx_with(2_000, vec![Instruction::Write { key: slot(1, 1), value: 1 }]));
    vm.inspect(&mut dispatcher, VmExecutionMode::OneTx);
    vm.make_snapshot();
    let before = vm.record_vm_memory_metrics();
    let gas = vm.gas_remaining();
    vm.pop_snapshot_no_rollback();
    let after = vm.record_vm_memory_metrics();
    assert_eq!(after.snapshots, 1);
    assert_eq!(after.storage_log, before.storage_log);
    assert_eq!(after.event_sink_frames, before.event_sink_frames);
    assert_eq!(after.bootloader_items, before.bootloader_items);
    assert_eq!(vm.gas_remaining(), gas);
    vm.pop_snapshot_no_rollback();
    vm.pop_snapshot_no_rollback();
    assert_eq!(vm.snapshot_depth(), 0);
    assert_eq!(vm.storage_log_len(), 1);
    assert_eq!(vm.gas_remaining(), gas);
}

#[test]
fn rollback_without_a_snapshot_is_reported() {
    let mut vm = fresh_vm();
    let mut dispatcher = silent();
    vm.push_transaction(tx_with(2_000, vec![Instruction::Write { key: slot(1, 1), value: 1 }]));
    vm.inspect(&mut dispatcher, VmExecutionMode::OneTx);
    assert_eq!(
        vm.try_rollback_to_the_latest_snapshot(),
        Err(InvariantViolation::NoSnapshot)
    );
    assert_eq!(vm.storage_log_len(), 1);
    assert_eq!(vm.gas_remaining(), 998_800);
    vm.make_snapshot();
    vm.push_transaction(tx_with(2_000, vec![]));
    assert_eq!(vm.try_rollback_to_the_latest_snapshot(), Ok(()));
    assert_eq!(vm.get_bootloader_memory().len(), 3 + 8 + 4);
}

#[test]
fn nested_snapshots_roll_back_in_order() {
    let mut vm = fresh_vm();
    let mut dispatcher = silent();
    vm.make_snapshot();
    vm.push_transaction(tx_with(2_000, vec![Instruction::Write { key: slot(1, 1), value: 1 }]));
    vm.inspect(&mut dispatcher, VmExecutionMode::OneTx);
    vm.make_snapshot();
    vm.push_transaction(tx_with(2_000, vec![Instruction::Write { key: slot(1, 1), value: 2 }]));
    vm.inspect(&mut dispatcher, VmExecutionMode::OneTx);
    assert_eq!(vm.storage_log_len(), 2);
    vm.rollback_to_the_latest_snapshot();
    assert_eq!(vm.storage_log_len(), 1);
    assert_eq!(vm.gas_remaining(), 998_800);
    vm.rollback_to_the_latest_snapshot();
    assert_eq!(vm.storage_log_len(), 0);
    assert_eq!(vm.gas_remaining(), 1_000_000);
}

#[test]
fn observers_are_told_in_the_order_of_attachment() {
    let mut vm = fresh_vm();
    let mut dispatcher: TracerDispatcher<Recorder> = TracerDispatcher::new();
    dispatcher.attach(Recorder { seen: vec![] });
    dispatcher.attach(Recorder { seen: vec![] });
    assert_eq!(dispatcher.len(), 2);
    vm.push_transaction(tx_with(
        2_000,
        vec![Instruction::Call, Instruction::Revert { value: 0 }],
    ));
    vm.inspect(&mut dispatcher, VmExecutionMode::OneTx);
    let tracers = dispatcher.into_tracers();
    assert_eq!(tracers.len(), 2);
    for tracer in tracers.iter() {
        assert_eq!(tracer.seen.len(), 4);
        assert_eq!(tracer.seen[0], TraceEvent::TxStarted { tx_number: 0, gas_limit: 2_000 });
        assert_eq!(
            tracer.seen[1],
            TraceEvent::Frame { frame: 1, parent: Some(0), reverted: false }
        );
        assert_eq!(
            tracer.seen[2],
            TraceEvent::Frame { frame: 2, parent: Some(1), reverted: true }
        );
        assert!(
            matches!(tracer.seen[3], TraceEvent::TxFinished { tx_number: 0, gas_used: 1_105, .. })
        );
    }
}

#[test]
fn bootloader_memory_lays_out_the_sequence() {
    let mut vm = fresh_vm();
    vm.push_transaction_with_compression(
        tx_with(5_000, vec![Instruction::Write { key: slot(9, 3), value: 42 }]),
        false,
    );
    vm.start_new_l2_block(L2BlockEnv { number: 101, timestamp: 1_001 });
    let words: Vec<u64> = vm.get_bootloader_memory().iter().map(|(_, word)| *word).collect();
    assert_eq!(
        words,
        vec![2, 100, 1_000, 1, 1, 2, 5, 5_000, 10, 1, 0, 2, 9, 3, 42, 2, 101, 1_001]
    );
    let offsets: Vec<usize> = vm.get_bootloader_memory().iter().map(|(at, _)| *at).collect();
    assert_eq!(offsets, (0..18).collect::<Vec<usize>>());
    vm.push_transaction(tx_with(5_000, vec![]));
    let memory = vm.get_bootloader_memory();
    assert_eq!(memory.len(), 26);
    assert_eq!(memory[25], (25, 1));
}

#[test]
fn a_call_tracer_sees_no_nested_call_in_a_transfer() {
    let mut vm = fresh_vm();
    let mut dispatcher: TracerDispatcher<CallTracer> = TracerDispatcher::new();
    dispatcher.attach(CallTracer::new());
    vm.push_transaction(tx_with(5_000, vec![]));
    let result = vm.inspect(&mut dispatcher, VmExecutionMode::OneTx);
    assert!(matches!(result.result, ExecutionResult::Success { .. }));
    let tracers = dispatcher.into_tracers();
    assert_eq!(tracers.len(), 1);
    assert_eq!(tracers[0].calls().len(), 0);
}

#[test]
fn a_call_tracer_sees_the_calls_of_the_latest_transaction() {
    let mut vm = fresh_vm();
    let mut dispatcher: TracerDispatcher<CallTracer> = TracerDispatcher::new();
    dispatcher.attach(CallTracer::new());
    dispatcher.attach(CallTracer::new());
    vm.push_transaction(tx_with(
        5_000,
        vec![Instruction::Call, Instruction::Call, Instruction::Revert { value: 0 }],
    ));
    vm.push_transaction(tx_with(5_000, vec![Instruction::Call]));
    vm.inspect(&mut dispatcher, VmExecutionMode::OneTx);
    {
        let first = dispatcher.into_tracers();
        assert_eq!(first.len(), 2);
        for tracer in first.iter() {
            let calls = tracer.calls();
            assert_eq!(calls.len(), 1);
            assert_eq!(calls[0].calls.len(), 1);
            assert_eq!(calls[0].calls[0].error, Some("reverted".to_string()));
            assert_eq!(calls[0].error, None);
        }
    }
    let mut dispatcher: TracerDispatcher<CallTracer> = TracerDispatcher::new();
    dispatcher.attach(CallTracer::new());
    vm.inspect(&mut dispatcher, VmExecutionMode::Batch);
    let second = dispatcher.into_tracers();
    let calls = second[0].calls();
    assert_eq!(calls.len(), 1);
    assert_eq!(calls[0].calls.len(), 0);
}
