//! Traces for users: what a stored trace or a simulated call is turned into
//! before it is shown.

use crate::call_trace::{
    lemma_call_tracer_told, lemma_recorded_call_shown, map_call, observe_all, records, showable,
    shows, shows_node, shows_nodes, text, traced_calls, Call, CallNode, CallTracer, DebugCall,
    TracedFrame, BOOTLOADER_ADDRESS,
};
use crate::results::{ExecutionResult, ExecutionResultView, Halt, RevertReason};
use crate::tracer::{TraceEvent, TracerDispatcher};
use crate::transaction::Transaction;
use crate::vm::{HistoryMode, Vm};
use vstd::prelude::*;

verus! {

/// What a caller may ask of the call tracer.
#[derive(Clone, Copy, Debug, PartialEq, Eq, Structural)]
pub struct CallTracerConfig {
    pub only_top_call: bool,
}

/// The options of a trace request.
#[derive(Clone, Copy, Debug, PartialEq, Eq, Structural)]
pub struct TracerConfig {
    pub tracer_config: CallTracerConfig,
}

/// A block by its place in the chain.
#[derive(Clone, Copy, Debug, PartialEq, Eq, Structural)]
pub enum BlockNumber {
    Earliest,
    Latest,
    Pending,
    Number(u64),
}

/// A block by its place or by its hash.
#[derive(Clone, Copy, Debug, PartialEq, Eq, Structural)]
pub enum BlockId {
    Hash(u64),
    Number(BlockNumber),
}

/// A trace as one entry of a block's traces.
#[derive(Debug)]
pub struct ResultDebugCall {
    pub result: DebugCall,
}

/// Why a call could not be traced.
#[derive(Debug)]
pub enum TraceError {
    /// The machine halted; the call cannot be part of a batch.
    SubmitTransactionError { reason: String, data: Vec<u8> },
}

/// Whether the options ask for the top call only. Without options they do
/// not.
pub open spec fn asks_top_call_only(options: Option<TracerConfig>) -> bool {
    match options {
        Some(config) => config.tracer_config.only_top_call,
        None => false,
    }
}

/// Whether only the top call is asked for. Without options it is not.
pub fn only_top_call(options: Option<TracerConfig>) -> (only: bool)
    ensures
        only == asks_top_call_only(options),
{
    match options {
        Some(config) => config.tracer_config.only_top_call,
        None => false,
    }
}

/// Whether the block asked for is the pending one, which has no traces yet.
pub fn is_pending_block(block_id: BlockId) -> (pending: bool)
    ensures
        pending == (block_id == BlockId::Number(BlockNumber::Pending)),
{
    match block_id {
        BlockId::Number(BlockNumber::Pending) => true,
        _ => false,
    }
}

/// The block the caller means: the pending one unless another is named.
pub fn block_or_pending(block_id: Option<BlockId>) -> (block: BlockId)
    ensures
        block == match block_id {
            Some(named) => named,
            None => BlockId::Number(BlockNumber::Pending),
        },
{
    match block_id {
        Some(named) => named,
        None => BlockId::Number(BlockNumber::Pending),
    }
}

/// The transaction that stands for a call as a user asks for it: what the
/// request leaves open is zero, but for the gas, which is then the block's
/// default, and for the fee, which is then without limit. A call runs no
/// instruction of its own and refers to no bytecode.
pub fn call_transaction(
    from: Option<u64>,
    to: Option<u64>,
    gas: Option<u32>,
    max_fee_per_gas: Option<u64>,
    value: Option<u64>,
    data: Vec<u8>,
    default_gas: u32,
) -> (tx: Transaction)
    ensures
        tx@.initiator == match from {
            Some(initiator) => initiator,
            None => 0,
        },
        tx@.contract == match to {
            Some(contract) => contract,
            None => 0,
        },
        tx@.value == match value {
            Some(amount) => amount,
            None => 0,
        },
        tx@.gas_limit == match gas {
            Some(limit) => limit,
            None => default_gas,
        },
        tx@.max_fee_per_gas == match max_fee_per_gas {
            Some(fee) => fee,
            None => u64::MAX,
        },
        tx@.calldata == data@,
        tx@.program.len() == 0,
        tx@.factory_deps.len() == 0,
{
    Transaction {
        initiator: match from {
            Some(initiator) => initiator,
            None => 0,
        },
        contract: match to {
            Some(contract) => contract,
            None => 0,
        },
        value: match value {
            Some(amount) => amount,
            None => 0,
        },
        gas_limit: match gas {
            Some(limit) => limit,
            None => default_gas,
        },
        max_fee_per_gas: match max_fee_per_gas {
            Some(fee) => fee,
            None => u64::MAX,
        },
        calldata: data,
        program: Vec::new(),
        factory_deps: Vec::new(),
    }
}

/// Shows the traces of a block, one entry for each, in their order.
pub fn map_block_traces(call_traces: &Vec<Call>, only_top_call: bool) -> (shown: Vec<
    ResultDebugCall,
>)
    requires
        forall|i: int|
            0 <= i < call_traces@.len() ==> showable(#[trigger] call_traces@[i], only_top_call),
    ensures
        shown@.len() == call_traces@.len(),
        forall|i: int|
            0 <= i < shown@.len() ==> shows(
                call_traces@[i],
                only_top_call,
                (#[trigger] shown@[i]).result,
            ),
{
    let mut shown: Vec<ResultDebugCall> = Vec::new();
    let mut i: usize = 0;
    while i < call_traces.len()
        invariant
            i <= call_traces.len(),
            forall|j: int|
                0 <= j < call_traces@.len() ==> showable(
                    #[trigger] call_traces@[j],
                    only_top_call,
                ),
            shown@.len() == i,
            forall|j: int|
                0 <= j < i ==> shows(call_traces@[j], only_top_call, (#[trigger] shown@[j]).result),
        decreases call_traces.len() - i,
    {
        let result = map_call(&call_traces[i], only_top_call);
        shown.push(ResultDebugCall { result });
        i = i + 1;
    }
    shown
}

/// Shows the trace of a transaction, if it has one.
pub fn map_transaction_trace(call_trace: Option<&Call>, only_top_call: bool) -> (shown: Option<
    DebugCall,
>)
    requires
        call_trace matches Some(call) ==> showable(*call, only_top_call),
    ensures
        match call_trace {
            Some(call) => shown matches Some(debug_call) && shows(
                *call,
                only_top_call,
                debug_call,
            ),
            None => shown is None,
        },
{
    match call_trace {
        Some(call) => Some(map_call(call, only_top_call)),
        None => None,
    }
}

pub open spec fn halt_text(reason: Halt) -> Seq<char> {
    match reason {
        Halt::TransactionTooLarge => "transaction is too large"@,
        Halt::GasLimitTooLow => "gas limit is too low"@,
        Halt::FeeTooLow => "fee is below the base fee"@,
        Halt::BatchGasExhausted => "batch is out of gas"@,
        Halt::UnexpectedVmBehavior => "unexpected VM behavior"@,
    }
}

/// Why the machine halted, in words.
pub fn halt_message(reason: Halt) -> (message: String)
    ensures
        message@ == halt_text(reason),
{
    match reason {
        Halt::TransactionTooLarge => "transaction is too large".to_string(),
        Halt::GasLimitTooLow => "gas limit is too low".to_string(),
        Halt::FeeTooLow => "fee is below the base fee".to_string(),
        Halt::BatchGasExhausted => "batch is out of gas".to_string(),
        Halt::UnexpectedVmBehavior => "unexpected VM behavior".to_string(),
    }
}

pub open spec fn revert_text(reason: RevertReason) -> Seq<char> {
    match reason {
        RevertReason::Requested => "execution reverted"@,
        RevertReason::OutOfGas => "out of gas"@,
    }
}

/// Why a transaction reverted, in words.
pub fn revert_message(reason: RevertReason) -> (message: String)
    ensures
        message@ == revert_text(reason),
{
    match reason {
        RevertReason::Requested => "execution reverted".to_string(),
        RevertReason::OutOfGas => "out of gas".to_string(),
    }
}

/// What a traced call shows of the outcome: the output of a success, the
/// reason of a revert in place of its output. A halt is an error.
pub fn call_outcome(result: ExecutionResult) -> (outcome: Result<
    (Vec<u8>, Option<String>),
    TraceError,
>)
    ensures
        match result@ {
            ExecutionResultView::Success { output } => outcome matches Ok(shown) && shown.0@
                == output && shown.1 is None,
            ExecutionResultView::Revert { reason, output } => outcome matches Ok(shown)
                && shown.0@.len() == 0 && text(shown.1) == Some(revert_text(reason)),
            ExecutionResultView::Halt { reason } => outcome matches Err(
                TraceError::SubmitTransactionError { reason: message, data },
            ) && message@ == halt_text(reason) && data@.len() == 0,
        },
{
    match result {
        ExecutionResult::Success { output } => Ok((output, None)),
        ExecutionResult::Revert { reason, output: _ } => Ok(
            (Vec::new(), Some(revert_message(reason))),
        ),
        ExecutionResult::Halt { reason } => Err(
            TraceError::SubmitTransactionError { reason: halt_message(reason), data: Vec::new() },
        ),
    }
}

/// Whether `shown` is, but for the calls below it, the trace of a simulated
/// call with the given gas limit, gas used, value and call data and the
/// outcome `result`: one call in nobody's name to the bootloader.
pub open spec fn shows_head(
    gas_limit: u64,
    gas_used: u64,
    value: u64,
    calldata: Seq<u8>,
    result: ExecutionResultView,
    shown: DebugCall,
) -> bool {
    &&& shown.kind == crate::call_trace::DebugCallType::Call
    &&& shown.from == 0
    &&& shown.to == BOOTLOADER_ADDRESS
    &&& shown.gas == gas_limit
    &&& shown.gas_used == gas_used
    &&& shown.value == value
    &&& shown.input@ == calldata
    &&& shown.error is None
    &&& match result {
        ExecutionResultView::Success { output } => shown.output@ == output
            && shown.revert_reason is None,
        ExecutionResultView::Revert { reason, output } => shown.output@.len() == 0 && text(
            shown.revert_reason,
        ) == Some(revert_text(reason)),
        ExecutionResultView::Halt { .. } => false,
    }
}

/// Whether `shown` is the trace of a simulated call with the given gas
/// limit, gas used, value and call data, the outcome `result` and the calls
/// of `trace` below it.
pub open spec fn shows_call(
    gas_limit: u64,
    gas_used: u64,
    value: u64,
    calldata: Seq<u8>,
    result: ExecutionResultView,
    trace: Seq<Call>,
    shown: DebugCall,
) -> bool {
    &&& shows_head(gas_limit, gas_used, value, calldata, result, shown)
    &&& shown.calls@.len() == trace.len()
    &&& forall|i: int| 0 <= i < trace.len() ==> shows(trace[i], false, #[trigger] shown.calls@[i])
}

/// The calls that a traced run shows below the top call: none if only the
/// top call is asked for, else those that a call tracer, attached for the
/// run and told of `trace`, has collected.
pub open spec fn calls_to_show(options: Option<TracerConfig>, trace: Seq<TraceEvent>) -> Seq<
    CallNode,
> {
    if asks_top_call_only(options) {
        Seq::empty()
    } else {
        traced_calls(observe_all(Seq::empty(), trace))
    }
}

/// Turns the outcome of a simulated call into the trace that is shown: a
/// halt is an error with its reason; anything else is shown as one call to
/// the bootloader, with the calls of `trace` below it.
pub fn build_debug_call(
    gas_limit: u64,
    gas_used: u64,
    value: u64,
    calldata: Vec<u8>,
    result: ExecutionResult,
    trace: Vec<Call>,
) -> (shown: Result<DebugCall, TraceError>)
    requires
        forall|i: int| 0 <= i < trace@.len() ==> showable(#[trigger] trace@[i], false),
    ensures
        match result@ {
            ExecutionResultView::Halt { reason } => shown matches Err(
                TraceError::SubmitTransactionError { reason: message, data },
            ) && message@ == halt_text(reason) && data@.len() == 0,
            _ => shown matches Ok(debug_call) && shows_call(
                gas_limit,
                gas_used,
                value,
                calldata@,
                result@,
                trace@,
                debug_call,
            ),
        },
{
    match call_outcome(result) {
        Err(error) => Err(error),
        Ok((output, revert_reason)) => {
            let call = Call::new_high_level(
                gas_limit,
                gas_used,
                value,
                calldata,
                output,
                revert_reason,
                trace,
            );
            Ok(map_call(&call, false))
        },
    }
}

/// What a tracer records can be shown.
pub proof fn lemma_records_showable(call: Call, node: CallNode)
    requires
        records(call, node),
    ensures
        showable(call, false),
    decreases call,
{
    assert forall|i: int| 0 <= i < call.calls@.len() implies showable(
        #[trigger] call.calls@[i],
        false,
    ) by {
        lemma_records_showable(call.calls@[i], node.calls[i]);
    }
}

/// Simulates `tx` on `vm` and shows what it did as a trace: the call itself
/// and, unless only the top call is asked for, the calls that a call tracer,
/// attached for the run, collected below it. Compression is asked for;
/// whether it failed has no part in the trace.
pub fn debug_trace_call<H: HistoryMode>(
    vm: &mut Vm<H>,
    tx: Transaction,
    options: Option<TracerConfig>,
) -> (shown: Result<DebugCall, TraceError>)
    requires
        old(vm).wf(),
    ensures
        final(vm).wf(),
        final(vm)@ == old(vm)@.pushed(tx@, true).inspect_one().vm,
        match old(vm)@.pushed(tx@, true).inspect_one().result {
            ExecutionResultView::Halt { reason } => shown matches Err(
                TraceError::SubmitTransactionError { reason: message, data },
            ) && message@ == halt_text(reason) && data@.len() == 0,
            result => shown matches Ok(debug_call) && shows_head(
                tx@.gas_limit as u64,
                (old(vm)@.state.top().gas_remaining - old(vm)@.pushed(
                    tx@,
                    true,
                ).inspect_one().vm.state.top().gas_remaining) as u64,
                tx@.value,
                tx@.calldata,
                result,
                debug_call,
            ) && shows_nodes(
                calls_to_show(options, old(vm)@.pushed(tx@, true).inspect_one().trace),
                debug_call.calls@,
            ),
        },
{
    let only_top = only_top_call(options);
    let mut dispatcher: TracerDispatcher<CallTracer> = TracerDispatcher::new();
    if !only_top {
        dispatcher.attach(CallTracer::new());
    }
    let ghost attached = dispatcher;
    let ghost run = old(vm)@.pushed(tx@, true).inspect_one();
    let gas_limit = tx.gas_limit as u64;
    let value = tx.value;
    let calldata = tx.calldata.clone();
    let (_, result) = vm.inspect_transaction_with_bytecode_compression(&mut dispatcher, tx, true);
    let ghost told = dispatcher;
    let mut tracers = dispatcher.into_tracers();
    let ghost nodes = calls_to_show(options, run.trace);
    let trace = match tracers.pop() {
        Some(tracer) => {
            let calls = tracer.calls();
            proof {
                assert(attached.tracers()[0]@ =~= Seq::<TracedFrame>::empty());
                assert(tracer == told.tracers()[0]);
                lemma_call_tracer_told(attached.tracers()[0], run.trace, tracer);
                assert forall|i: int| 0 <= i < calls@.len() implies showable(
                    #[trigger] calls@[i],
                    false,
                ) by {
                    lemma_records_showable(calls@[i], nodes[i]);
                }
            }
            calls
        },
        None => Vec::new(),
    };
    let ghost seen = trace@;
    let gas_used = result.statistics.gas_used as u64;
    let shown = build_debug_call(gas_limit, gas_used, value, calldata, result.result, trace);
    proof {
        if shown is Ok {
            let debug_call = shown->Ok_0;
            assert forall|i: int| 0 <= i < debug_call.calls@.len() implies shows_node(
                nodes[i],
                #[trigger] debug_call.calls@[i],
            ) by {
                lemma_recorded_call_shown(seen[i], nodes[i], debug_call.calls@[i]);
            }
        }
    }
    shown
}

/// One call of a flattened trace: the call without the calls below it, with
/// their number and with the path that leads to it.
#[derive(Debug)]
pub struct DebugCallFlat {
    pub kind: crate::call_trace::DebugCallType,
    pub from: u64,
    pub to: u64,
    pub gas: u64,
    pub value: u64,
    pub input: Vec<u8>,
    pub output: Vec<u8>,
    pub gas_used: u64,
    pub subtraces: usize,
    pub traceaddress: Vec<usize>,
}

pub struct DebugCallFlatView {
    pub kind: crate::call_trace::DebugCallType,
    pub from: u64,
    pub to: u64,
    pub gas: u64,
    pub value: u64,
    pub input: Seq<u8>,
    pub output: Seq<u8>,
    pub gas_used: u64,
    pub subtraces: nat,
    pub traceaddress: Seq<usize>,
}

impl View for DebugCallFlat {
    type V = DebugCallFlatView;

    open spec fn view(&self) -> DebugCallFlatView {
        DebugCallFlatView {
            kind: self.kind,
            from: self.from,
            to: self.to,
            gas: self.gas,
            value: self.value,
            input: self.input@,
            output: self.output@,
            gas_used: self.gas_used,
            subtraces: self.subtraces as nat,
            traceaddress: self.traceaddress@,
        }
    }
}

/// The call at `address`, without the calls below it.
pub open spec fn flat_entry(call: DebugCall, address: Seq<usize>) -> DebugCallFlatView {
    DebugCallFlatView {
        kind: call.kind,
        from: call.from,
        to: call.to,
        gas: call.gas,
        value: call.value,
        input: call.input@,
        output: call.output@,
        gas_used: call.gas_used,
        subtraces: call.calls@.len(),
        traceaddress: address,
    }
}

/// The call at `address` and then the calls below it, each before the calls
/// below itself.
pub open spec fn flat_call(call: DebugCall, address: Seq<usize>) -> Seq<DebugCallFlatView>
    decreases call, call.calls@.len() + 1,
{
    seq![flat_entry(call, address)] + flat_below(call, address, call.calls@.len() as int)
}

/// The flattened first `count` calls below the call at `address`.
pub open spec fn flat_below(call: DebugCall, address: Seq<usize>, count: int) -> Seq<
    DebugCallFlatView,
>
    decreases call, count,
{
    if count <= 0 || count > call.calls@.len() {
        Seq::empty()
    } else {
        flat_below(call, address, count - 1) + flat_call(
            call.calls@[count - 1],
            address.push((count - 1) as usize),
        )
    }
}

/// The flattened first `count` traces of a block.
pub open spec fn flat_traces(calls: Seq<ResultDebugCall>, count: int) -> Seq<DebugCallFlatView>
    decreases count,
{
    if count <= 0 || count > calls.len() {
        Seq::empty()
    } else {
        flat_traces(calls, count - 1) + flat_call(
            calls[count - 1].result,
            seq![(count - 1) as usize],
        )
    }
}

pub open spec fn flat_views(flat: Seq<DebugCallFlat>) -> Seq<DebugCallFlatView> {
    flat.map_values(|entry: DebugCallFlat| entry@)
}

fn flatten_call(call: &DebugCall, flat: &mut Vec<DebugCallFlat>, address: &mut Vec<usize>)
    ensures
        flat_views(final(flat)@) == flat_views(old(flat)@) + flat_call(*call, old(address)@),
        final(address)@ == old(address)@,
    decreases call,
{
    let ghost start = flat_views(flat@);
    let ghost path = address@;
    let entry = DebugCallFlat {
        kind: call.kind,
        from: call.from,
        to: call.to,
        gas: call.gas,
        value: call.value,
        input: call.input.clone(),
        output: call.output.clone(),
        gas_used: call.gas_used,
        subtraces: call.calls.len(),
        traceaddress: address.clone(),
    };
    flat.push(entry);
    let mut index: usize = 0;
    while index < call.calls.len()
        invariant
            index <= call.calls.len(),
            address@ == path,
            flat_views(flat@) == start + seq![flat_entry(*call, path)] + flat_below(
                *call,
                path,
                index as int,
            ),
        decreases call.calls.len() - index,
    {
        address.push(index);
        flatten_call(&call.calls[index], flat, address);
        address.pop();
        index = index + 1;
    }
}

/// Flattens the traces of a block: each call before the calls below it,
/// each with the path that leads to it from the block.
pub fn flatten_debug_calls(calls: &Vec<ResultDebugCall>) -> (flat: Vec<DebugCallFlat>)
    ensures
        flat_views(flat@) == flat_traces(calls@, calls@.len() as int),
{
    let mut flat: Vec<DebugCallFlat> = Vec::new();
    let mut index: usize = 0;
    while index < calls.len()
        invariant
            index <= calls.len(),
            flat_views(flat@) == flat_traces(calls@, index as int),
        decreases calls.len() - index,
    {
        let mut address: Vec<usize> = Vec::new();
        address.push(index);
        flatten_call(&calls[index].result, &mut flat, &mut address);
        index = index + 1;
    }
    flat
}

} // verus!
