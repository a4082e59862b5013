use batch_vm::bootloader::{copy_bytecodes, BootloaderCursor, BootloaderState};
use batch_vm::call_trace::{
    build_calls, is_showable, map_call, Call, CallTracer, CallType, DebugCallType, FarCallOpcode,
    TracedFrame,
};
use batch_vm::debug::{
    block_or_pending, build_debug_call, call_outcome, call_transaction, debug_trace_call, flatten_debug_calls,
    halt_message, is_pending_block, map_block_traces, map_transaction_trace, only_top_call,
    revert_message, BlockId, BlockNumber, CallTracerConfig, TraceError, TracerConfig,
};
use batch_vm::results::{into_result, ExecutionResult, Halt, RevertReason, TxOutcome};
use batch_vm::storage::InMemoryStorage;
use batch_vm::tracer::TraceEvent;
use batch_vm::transaction::{
    instruction_gas, word_to_bytes, CompressedBytecodeInfo, Instruction, L1BatchEnv, L2BlockEnv,
    SystemEnv, Transaction,
};
use batch_vm::vm::{HistoryDisabled, Vm};
use std::rc::Rc;

fn leaf(kind: CallType, gas: u64) -> Call {
    Call {
        kind,
        from: 1,
        to: 2,
        parent_gas: gas + 1,
        gas,
        gas_used: gas / 2,
        value: 3,
        input: vec![1],
        output: vec![2, 3],
        error: None,
        revert_reason: None,
        calls: vec![],
    }
}

fn tree() -> Call {
    let mut inner = leaf(CallType::Create, 50);
    inner.calls = vec![leaf(CallType::Call(FarCallOpcode::Delegate), 10)];
    inner.error = Some("boom".to_string());
    let mut top = leaf(CallType::Call(FarCallOpcode::Normal), 100);
    top.calls = vec![inner, leaf(CallType::Call(FarCallOpcode::Mimic), 20)];
    top.revert_reason = Some("why".to_string());
    top
}

#[test]
fn a_call_is_shown_field_for_field() {
    let shown = map_call(&tree(), false);
    assert_eq!(shown.kind, DebugCallType::Call);
    assert_eq!((shown.from, shown.to, shown.gas, shown.gas_used, shown.value), (1, 2, 100, 50, 3));
    assert_eq!(shown.input, vec![1]);
    assert_eq!(shown.output, vec![2, 3]);
    assert_eq!(shown.error, None);
    assert_eq!(shown.revert_reason, Some("why".to_string()));
    assert_eq!(shown.calls.len(), 2);
    assert_eq!(shown.calls[0].kind, DebugCallType::Create);
    assert_eq!(shown.calls[0].error, Some("boom".to_string()));
    assert_eq!(shown.calls[0].calls.len(), 1);
    assert_eq!(shown.calls[0].calls[0].gas, 10);
    assert_eq!(shown.calls[1].gas, 20);
}

#[test]
fn only_the_top_call_is_shown_on_request() {
    let shown = map_call(&tree(), true);
    assert_eq!(shown.gas, 100);
    assert_eq!(shown.calls.len(), 0);
}

#[test]
fn block_traces_are_shown_one_by_one() {
    let traces = vec![tree(), leaf(CallType::Create, 7)];
    let shown = map_block_traces(&traces, false);
    assert_eq!(shown.len(), 2);
    assert_eq!(shown[0].result.calls.len(), 2);
    assert_eq!(shown[1].result.kind, DebugCallType::Create);
    let top_only = map_block_traces(&traces, true);
    assert_eq!(top_only[0].result.calls.len(), 0);
    assert_eq!(map_block_traces(&Vec::new(), false).len(), 0);
    assert!(map_transaction_trace(None, false).is_none());
    let call = tree();
    assert_eq!(map_transaction_trace(Some(&call), false).unwrap().calls.len(), 2);
}

#[test]
fn options_default_to_the_whole_trace() {
    assert!(!only_top_call(None));
    let config = |only_top_call| TracerConfig { tracer_config: CallTracerConfig { only_top_call } };
    assert!(only_top_call(Some(config(true))));
    assert!(!only_top_call(Some(config(false))));
    assert!(is_pending_block(BlockId::Number(BlockNumber::Pending)));
    assert!(!is_pending_block(BlockId::Number(BlockNumber::Latest)));
    assert!(!is_pending_block(BlockId::Number(BlockNumber::Number(3))));
    assert!(!is_pending_block(BlockId::Hash(3)));
    assert_eq!(block_or_pending(None), BlockId::Number(BlockNumber::Pending));
    assert_eq!(block_or_pending(Some(BlockId::Hash(4))), BlockId::Hash(4));
}

#[test]
fn outcomes_are_shown_by_kind() {
    match call_outcome(ExecutionResult::Success { output: vec![9] }) {
        Ok((output, reason)) => {
            assert_eq!(output, vec![9]);
            assert_eq!(reason, None);
        }
        Err(error) => panic!("unexpected {:?}", error),
    }
    match call_outcome(ExecutionResult::Revert { reason: RevertReason::OutOfGas, output: vec![9] })
    {
        Ok((output, reason)) => {
            assert_eq!(output.len(), 0);
            assert_eq!(reason, Some("out of gas".to_string()));
        }
        Err(error) => panic!("unexpected {:?}", error),
    }
    match call_outcome(ExecutionResult::Halt { reason: Halt::FeeTooLow }) {
        Err(TraceError::SubmitTransactionError { reason, data }) => {
            assert_eq!(reason, "fee is below the base fee");
            assert_eq!(data.len(), 0);
        }
        Ok(shown) => panic!("unexpected {:?}", shown),
    }
    assert_eq!(halt_message(Halt::TransactionTooLarge), "transaction is too large");
    assert_eq!(halt_message(Halt::GasLimitTooLow), "gas limit is too low");
    assert_eq!(halt_message(Halt::BatchGasExhausted), "batch is out of gas");
    assert_eq!(halt_message(Halt::UnexpectedVmBehavior), "unexpected VM behavior");
    assert_eq!(revert_message(RevertReason::Requested), "execution reverted");
}

#[test]
fn a_simulated_call_is_shown_as_a_call_to_the_bootloader() {
    let shown = build_debug_call(
        5_000,
        1_234,
        7,
        vec![0xca, 0xfe],
        ExecutionResult::Revert { reason: RevertReason::Requested, output: vec![1] },
        vec![leaf(CallType::Create, 5)],
    )
    .unwrap();
    assert_eq!(shown.kind, DebugCallType::Call);
    assert_eq!((shown.from, shown.to), (0, 0x8001));
    assert_eq!((shown.gas, shown.gas_used, shown.value), (5_000, 1_234, 7));
    assert_eq!(shown.input, vec![0xca, 0xfe]);
    assert_eq!(shown.output.len(), 0);
    assert_eq!(shown.revert_reason, Some("execution reverted".to_string()));
    assert_eq!(shown.error, None);
    assert_eq!(shown.calls.len(), 1);
    assert_eq!(shown.calls[0].kind, DebugCallType::Create);
    let halted = build_debug_call(
        5_000,
        0,
        7,
        vec![],
        ExecutionResult::Halt { reason: Halt::GasLimitTooLow },
        vec![],
    );
    assert!(matches!(halted, Err(TraceError::SubmitTransactionError { .. })));
}

fn frame(frame: usize, parent: usize, reverted: bool) -> TracedFrame {
    TracedFrame { frame, parent: Some(parent), reverted }
}

#[test]
fn traced_frames_form_a_tree() {
    let frames = vec![
        frame(1, 0, false),
        frame(2, 1, false),
        frame(3, 2, true),
        frame(4, 2, false),
        frame(5, 1, true),
        frame(6, 5, false),
    ];
    let calls = build_calls(&frames, 1, 1);
    assert_eq!(calls.len(), 2);
    assert_eq!(calls[0].calls.len(), 2);
    assert_eq!(calls[0].error, None);
    assert_eq!(calls[0].calls[0].error, Some("reverted".to_string()));
    assert_eq!(calls[0].calls[0].calls.len(), 0);
    assert_eq!(calls[0].calls[1].error, None);
    assert_eq!(calls[1].error, Some("reverted".to_string()));
    assert_eq!(calls[1].calls.len(), 1);
    assert_eq!(calls[1].kind, CallType::Call(FarCallOpcode::Normal));
    assert_eq!(build_calls(&frames, 0, 0).len(), 1);
    assert_eq!(build_calls(&frames, 9, 0).len(), 0);
    assert_eq!(build_calls(&frames, 1, 6).len(), 0);
}

#[test]
fn the_call_tracer_keeps_the_latest_transaction() {
    let mut tracer = CallTracer::new();
    assert_eq!(tracer.calls().len(), 0);
    tracer.record(&TraceEvent::TxStarted { tx_number: 0, gas_limit: 10 });
    tracer.record(&TraceEvent::Frame { frame: 1, parent: Some(0), reverted: false });
    tracer.record(&TraceEvent::Frame { frame: 2, parent: Some(1), reverted: false });
    tracer.record(&TraceEvent::TxFinished {
        tx_number: 0,
        outcome: TxOutcome::OutOfGas,
        gas_used: 10,
    });
    assert_eq!(tracer.calls().len(), 1);
    tracer.record(&TraceEvent::TxStarted { tx_number: 1, gas_limit: 10 });
    tracer.record(&TraceEvent::Frame { frame: 3, parent: Some(0), reverted: false });
    assert_eq!(tracer.calls().len(), 0);
}

fn sandbox() -> Vm<HistoryDisabled> {
    Vm::new(
        L1BatchEnv {
            number: 1,
            timestamp: 1,
            base_fee: 1,
            first_l2_block: L2BlockEnv { number: 1, timestamp: 1 },
        },
        SystemEnv { chain_id: 1, batch_gas_limit: 100_000, max_encoded_tx_words: 1_000 },
        Rc::new(InMemoryStorage::new()),
    )
}

fn call_with(gas_limit: u32, program: Vec<Instruction>) -> Transaction {
    Transaction {
        initiator: 1,
        contract: 2,
        value: 8,
        gas_limit,
        max_fee_per_gas: 1,
        calldata: vec![0xde, 0xad],
        program,
        factory_deps: vec![],
    }
}

#[test]
fn a_traced_call_shows_the_calls_below_it() {
    let program = || {
        vec![
            Instruction::Call,
            Instruction::Call,
            Instruction::Return { value: 0 },
            Instruction::Revert { value: 0 },
            Instruction::Call,
            Instruction::Return { value: 0 },
            Instruction::Return { value: 0x11 },
        ]
    };
    let mut vm = sandbox();
    let shown = debug_trace_call(&mut vm, call_with(5_000, program()), None).unwrap();
    assert_eq!(shown.kind, DebugCallType::Call);
    assert_eq!(shown.to, 0x8001);
    assert_eq!(shown.gas, 5_000);
    assert_eq!(shown.gas_used, 1_000 + 3 * 100 + 4 * 5);
    assert_eq!(shown.value, 8);
    assert_eq!(shown.input, vec![0xde, 0xad]);
    assert_eq!(shown.output, vec![0, 0, 0, 0, 0, 0, 0, 0x11]);
    assert_eq!(shown.revert_reason, None);
    assert_eq!(shown.calls.len(), 2);
    assert_eq!(shown.calls[0].error, Some("reverted".to_string()));
    assert_eq!(shown.calls[0].calls.len(), 1);
    assert_eq!(shown.calls[1].calls.len(), 0);
    let mut vm = sandbox();
    let config = TracerConfig { tracer_config: CallTracerConfig { only_top_call: true } };
    let top = debug_trace_call(&mut vm, call_with(5_000, program()), Some(config)).unwrap();
    assert_eq!(top.calls.len(), 0);
    assert_eq!(top.gas_used, shown.gas_used);
}

#[test]
fn a_halted_call_is_an_error() {
    let mut vm = sandbox();
    let shown = debug_trace_call(&mut vm, call_with(5_000, vec![Instruction::Invalid]), None);
    match shown {
        Err(TraceError::SubmitTransactionError { reason, data }) => {
            assert_eq!(reason, "unexpected VM behavior");
            assert_eq!(data.len(), 0);
        }
        Ok(call) => panic!("unexpected {:?}", call),
    }
    let reverted =
        debug_trace_call(&mut vm, call_with(5_000, vec![Instruction::Revert { value: 1 }]), None)
            .unwrap();
    assert_eq!(reverted.revert_reason, Some("execution reverted".to_string()));
    assert_eq!(reverted.output.len(), 0);
}

#[test]
fn outcomes_are_laid_out_in_bytes() {
    assert_eq!(word_to_bytes(0), vec![0; 8]);
    assert_eq!(word_to_bytes(u64::MAX), vec![0xff; 8]);
    assert_eq!(word_to_bytes(0x0102_0304_0506_0708), vec![1, 2, 3, 4, 5, 6, 7, 8]);
    assert!(matches!(
        into_result(TxOutcome::Success { output: None }),
        ExecutionResult::Success { output } if output.is_empty()
    ));
    assert!(matches!(
        into_result(TxOutcome::Revert { value: 1 }),
        ExecutionResult::Revert { reason: RevertReason::Requested, output } if output.len() == 8
    ));
    assert!(matches!(
        into_result(TxOutcome::OutOfGas),
        ExecutionResult::Revert { reason: RevertReason::OutOfGas, output } if output.is_empty()
    ));
    assert!(matches!(
        into_result(TxOutcome::Halted { reason: Halt::FeeTooLow }),
        ExecutionResult::Halt { reason: Halt::FeeTooLow }
    ));
    assert_eq!(instruction_gas(&Instruction::Call), 100);
    assert_eq!(instruction_gas(&Instruction::Invalid), 5);
}

#[test]
fn the_bootloader_keeps_its_place() {
    let mut state = BootloaderState::new(L2BlockEnv { number: 1, timestamp: 1 });
    assert_eq!(state.cursor(), BootloaderCursor { items: 1, next: 1, executed: 0 });
    assert_eq!(state.pending_tx(), None);
    state.start_new_l2_block(L2BlockEnv { number: 2, timestamp: 2 });
    assert_eq!(state.pending_tx(), None);
    state.push_tx(
        call_with(5_000, vec![]),
        true,
        vec![CompressedBytecodeInfo { hash: 5, compressed: vec![1] }],
    );
    state.push_tx(call_with(6_000, vec![]), false, vec![]);
    assert_eq!(state.pending_tx(), Some(2));
    assert!(state.tx_at(1).is_none());
    assert!(state.tx_at(9).is_none());
    assert_eq!(state.tx_at(2).unwrap().tx.gas_limit, 5_000);
    assert_eq!(state.get_last_tx_compressed_bytecodes().len(), 0);
    let saved = state.cursor();
    state.mark_executed(2);
    assert_eq!(state.executed_txs(), 1);
    assert_eq!(state.pending_tx(), Some(3));
    state.start_new_l2_block(L2BlockEnv { number: 3, timestamp: 3 });
    assert_eq!(state.cursor(), BootloaderCursor { items: 5, next: 3, executed: 1 });
    assert_eq!(state.get_last_tx_compressed_bytecodes().len(), 0);
    state.rewind(BootloaderCursor { items: 3, ..saved });
    assert_eq!(state.cursor(), BootloaderCursor { items: 3, next: 1, executed: 0 });
    assert_eq!(state.pending_tx(), Some(2));
    let accepted = state.get_last_tx_compressed_bytecodes();
    assert_eq!(accepted.len(), 1);
    assert_eq!(accepted[0].compressed, vec![1]);
    assert_eq!(copy_bytecodes(&accepted)[0].hash, 5);
    assert_eq!(state.bootloader_memory().len(), 3 + 3 + 8);
}

#[test]
fn near_calls_cannot_be_shown() {
    assert!(is_showable(&tree(), false));
    assert!(is_showable(&tree(), true));
    assert!(!is_showable(&leaf(CallType::NearCall, 1), true));
    let mut hidden = tree();
    hidden.calls[0].calls.push(leaf(CallType::NearCall, 1));
    assert!(!is_showable(&hidden, false));
    assert!(is_showable(&hidden, true));
}

#[test]
fn a_flattened_trace_lists_each_call_before_the_calls_below_it() {
    let traces = map_block_traces(&vec![leaf(CallType::Create, 7), tree()], false);
    let flat = flatten_debug_calls(&traces);
    let addresses: Vec<Vec<usize>> = flat.iter().map(|call| call.traceaddress.clone()).collect();
    assert_eq!(
        addresses,
        vec![vec![0], vec![1], vec![1, 0], vec![1, 0, 0], vec![1, 1]]
    );
    let subtraces: Vec<usize> = flat.iter().map(|call| call.subtraces).collect();
    assert_eq!(subtraces, vec![0, 2, 1, 0, 0]);
    let gas: Vec<u64> = flat.iter().map(|call| call.gas).collect();
    assert_eq!(gas, vec![7, 100, 50, 10, 20]);
    assert_eq!(flat[0].kind, DebugCallType::Create);
    assert_eq!(flat[2].kind, DebugCallType::Create);
    assert_eq!(flat[1].gas_used, 50);
    assert_eq!(flat[1].input, vec![1]);
    assert_eq!(flat[1].output, vec![2, 3]);
    assert_eq!((flat[1].from, flat[1].to, flat[1].value), (1, 2, 3));
    assert_eq!(flatten_debug_calls(&Vec::new()).len(), 0);
}

#[test]
fn a_call_request_becomes_a_transaction() {
    let tx = call_transaction(Some(3), None, None, None, Some(9), vec![1, 2], 7_000);
    assert_eq!((tx.initiator, tx.contract, tx.value), (3, 0, 9));
    assert_eq!(tx.gas_limit, 7_000);
    assert_eq!(tx.max_fee_per_gas, u64::MAX);
    assert_eq!(tx.calldata, vec![1, 2]);
    assert_eq!(tx.program.len(), 0);
    assert_eq!(tx.factory_deps.len(), 0);
    let tx = call_transaction(None, Some(4), Some(5_000), Some(11), None, vec![], 7_000);
    assert_eq!((tx.initiator, tx.contract, tx.value), (0, 4, 0));
    assert_eq!(tx.gas_limit, 5_000);
    assert_eq!(tx.max_fee_per_gas, 11);
}

#[test]
fn a_traced_transfer_shows_no_call_below_it() {
    let mut vm = sandbox();
    let shown = debug_trace_call(&mut vm, call_with(5_000, vec![]), None).unwrap();
    assert_eq!(shown.calls.len(), 0);
    assert_eq!(shown.gas_used, 1_000);
    assert_eq!(shown.output.len(), 0);
}
