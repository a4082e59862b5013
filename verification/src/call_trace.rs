//! Call traces: the tree of calls that a transaction made, as the engine
//! records it and as it is shown to users.

use crate::tracer::{TraceEvent, Tracer};
use vstd::prelude::*;

verus! {

/// How a far call hands over control.
#[derive(Clone, Copy, Debug, PartialEq, Eq, Structural)]
pub enum FarCallOpcode {
    Normal,
    Delegate,
    Mimic,
}

/// The kind of a recorded call.
#[derive(Clone, Copy, Debug, PartialEq, Eq, Structural)]
pub enum CallType {
    Call(FarCallOpcode),
    Create,
    /// A call inside one contract. Such calls are filtered out before a
    /// trace is shown.
    NearCall,
}

/// The kind of a call as users see it.
#[derive(Clone, Copy, Debug, PartialEq, Eq, Structural)]
pub enum DebugCallType {
    Call,
    Create,
}

/// A call as the engine records it.
#[derive(Debug)]
pub struct Call {
    pub kind: CallType,
    pub from: u64,
    pub to: u64,
    pub parent_gas: u64,
    pub gas: u64,
    pub gas_used: u64,
    pub value: u64,
    pub input: Vec<u8>,
    pub output: Vec<u8>,
    pub error: Option<String>,
    pub revert_reason: Option<String>,
    pub calls: Vec<Call>,
}

/// A call as users see it.
#[derive(Debug)]
pub struct DebugCall {
    pub kind: DebugCallType,
    pub from: u64,
    pub to: u64,
    pub gas: u64,
    pub gas_used: u64,
    pub value: u64,
    pub output: Vec<u8>,
    pub input: Vec<u8>,
    pub error: Option<String>,
    pub revert_reason: Option<String>,
    pub calls: Vec<DebugCall>,
}

/// The account in whose name the bootloader calls.
pub const BOOTLOADER_ADDRESS: u64 = 0x8001;

pub open spec fn text(value: Option<String>) -> Option<Seq<char>> {
    match value {
        Some(s) => Some(s@),
        None => None,
    }
}

/// Whether a call can be shown: it is no near call, and unless only the top
/// call is asked for, neither is any call below it.
pub open spec fn showable(call: Call, only_top_call: bool) -> bool
    decreases call,
{
    &&& call.kind != CallType::NearCall
    &&& !only_top_call ==> forall|i: int|
        0 <= i < call.calls@.len() ==> showable(#[trigger] call.calls@[i], false)
}

/// Whether `shown` is `call` as users see it: field for field the same, with
/// the calls below it shown likewise, or left out if only the top call is
/// asked for.
pub open spec fn shows(call: Call, only_top_call: bool, shown: DebugCall) -> bool
    decreases call,
{
    &&& shown.kind == match call.kind {
        CallType::Create => DebugCallType::Create,
        _ => DebugCallType::Call,
    }
    &&& shown.from == call.from
    &&& shown.to == call.to
    &&& shown.gas == call.gas
    &&& shown.gas_used == call.gas_used
    &&& shown.value == call.value
    &&& shown.output@ == call.output@
    &&& shown.input@ == call.input@
    &&& text(shown.error) == text(call.error)
    &&& text(shown.revert_reason) == text(call.revert_reason)
    &&& shown.calls@.len() == if only_top_call {
        0
    } else {
        call.calls@.len()
    }
    &&& forall|i: int|
        0 <= i < call.calls@.len() && i < shown.calls@.len() ==> shows(
            #[trigger] call.calls@[i],
            false,
            shown.calls@[i],
        )
}

/// Whether a call can be shown.
pub fn is_showable(call: &Call, only_top_call: bool) -> (ok: bool)
    ensures
        ok == showable(*call, only_top_call),
    decreases call,
{
    match call.kind {
        CallType::NearCall => {
            return false;
        },
        _ => {},
    }
    if only_top_call {
        return true;
    }
    let mut i: usize = 0;
    while i < call.calls.len()
        invariant
            i <= call.calls.len(),
            !only_top_call,
            call.kind != CallType::NearCall,
            forall|j: int| 0 <= j < i ==> showable(#[trigger] call.calls@[j], false),
        decreases call.calls.len() - i,
    {
        if !is_showable(&call.calls[i], false) {
            return false;
        }
        i = i + 1;
    }
    true
}

fn copy_text(value: &Option<String>) -> (copy: Option<String>)
    ensures
        text(copy) == text(*value),
{
    match value {
        Some(s) => Some(s.clone()),
        None => None,
    }
}

/// Shows a recorded call to users.
pub fn map_call(call: &Call, only_top_call: bool) -> (shown: DebugCall)
    requires
        showable(*call, only_top_call),
    ensures
        shows(*call, only_top_call, shown),
    decreases call,
{
    let mut calls: Vec<DebugCall> = Vec::new();
    if !only_top_call {
        let mut i: usize = 0;
        while i < call.calls.len()
            invariant
                i <= call.calls.len(),
                !only_top_call,
                showable(*call, only_top_call),
                calls@.len() == i,
                forall|j: int| 0 <= j < i ==> shows(#[trigger] call.calls@[j], false, calls@[j]),
            decreases call.calls.len() - i,
        {
            let below = map_call(&call.calls[i], false);
            calls.push(below);
            i = i + 1;
        }
    }
    let kind = match call.kind {
        CallType::Create => DebugCallType::Create,
        _ => DebugCallType::Call,
    };
    DebugCall {
        kind,
        from: call.from,
        to: call.to,
        gas: call.gas,
        gas_used: call.gas_used,
        value: call.value,
        output: call.output.clone(),
        input: call.input.clone(),
        error: copy_text(&call.error),
        revert_reason: copy_text(&call.revert_reason),
        calls,
    }
}

impl Call {
    /// The call that stands for a whole transaction: made in nobody's name
    /// to the bootloader, with the transaction's gas, value and data.
    pub fn new_high_level(
        gas: u64,
        gas_used: u64,
        value: u64,
        input: Vec<u8>,
        output: Vec<u8>,
        revert_reason: Option<String>,
        calls: Vec<Call>,
    ) -> (call: Call)
        ensures
            call.kind == CallType::Call(FarCallOpcode::Normal),
            call.from == 0,
            call.to == BOOTLOADER_ADDRESS,
            call.parent_gas == gas,
            call.gas == gas,
            call.gas_used == gas_used,
            call.value == value,
            call.input == input,
            call.output == output,
            call.error is None,
            call.revert_reason == revert_reason,
            call.calls == calls,
    {
        Call {
            kind: CallType::Call(FarCallOpcode::Normal),
            from: 0,
            to: BOOTLOADER_ADDRESS,
            parent_gas: gas,
            gas,
            gas_used,
            value,
            input,
            output,
            error: None,
            revert_reason,
            calls,
        }
    }
}

/// A call frame as an observer was told of it.
#[derive(Clone, Copy, Debug, PartialEq, Eq, Structural)]
pub struct TracedFrame {
    pub frame: usize,
    pub parent: Option<usize>,
    pub reverted: bool,
}

/// A call in the tree that traced frames form.
pub struct CallNode {
    pub frame: usize,
    pub reverted: bool,
    pub calls: Seq<CallNode>,
}

/// The calls that `parent` made among the frames from `start` up to `end`,
/// in the order in which they were opened, each with the calls below it.
/// Frames come in the order of opening, so the calls of a frame follow it.
pub open spec fn calls_between(frames: Seq<TracedFrame>, parent: usize, start: int, end: int) -> Seq<
    CallNode,
>
    decreases frames.len() - start, end - start,
{
    if start < 0 || end <= start || end > frames.len() {
        Seq::empty()
    } else {
        let rest = calls_between(frames, parent, start, end - 1);
        let last = frames[end - 1];
        if last.parent == Some(parent) {
            rest.push(
                CallNode {
                    frame: last.frame,
                    reverted: last.reverted,
                    calls: calls_between(frames, last.frame, end, frames.len() as int),
                },
            )
        } else {
            rest
        }
    }
}

/// Whether `call` records `node`: a plain call that carries no more than
/// whether it was reverted, with the calls below it recorded likewise.
pub open spec fn records(call: Call, node: CallNode) -> bool
    decreases call,
{
    &&& call.kind == CallType::Call(FarCallOpcode::Normal)
    &&& call.from == 0
    &&& call.to == 0
    &&& call.parent_gas == 0
    &&& call.gas == 0
    &&& call.gas_used == 0
    &&& call.value == 0
    &&& call.input@.len() == 0
    &&& call.output@.len() == 0
    &&& text(call.error) == if node.reverted {
        Some("reverted"@)
    } else {
        None
    }
    &&& call.revert_reason is None
    &&& call.calls@.len() == node.calls.len()
    &&& forall|i: int|
        0 <= i < call.calls@.len() && i < node.calls.len() ==> records(
            #[trigger] call.calls@[i],
            node.calls[i],
        )
}

/// Whether `shown` is `node` as users see it: a plain call that carries no
/// more than whether it was reverted, with the calls below it shown
/// likewise.
pub open spec fn shows_node(node: CallNode, shown: DebugCall) -> bool
    decreases shown,
{
    &&& shown.kind == DebugCallType::Call
    &&& shown.from == 0
    &&& shown.to == 0
    &&& shown.gas == 0
    &&& shown.gas_used == 0
    &&& shown.value == 0
    &&& shown.input@.len() == 0
    &&& shown.output@.len() == 0
    &&& text(shown.error) == if node.reverted {
        Some("reverted"@)
    } else {
        None
    }
    &&& shown.revert_reason is None
    &&& shown.calls@.len() == node.calls.len()
    &&& forall|i: int|
        0 <= i < shown.calls@.len() && i < node.calls.len() ==> shows_node(
            node.calls[i],
            #[trigger] shown.calls@[i],
        )
}

/// Whether `shown` are `nodes` as users see them, one for one.
pub open spec fn shows_nodes(nodes: Seq<CallNode>, shown: Seq<DebugCall>) -> bool {
    &&& shown.len() == nodes.len()
    &&& forall|i: int| 0 <= i < shown.len() ==> shows_node(nodes[i], #[trigger] shown[i])
}

/// What is shown of a call that records a node is that node as users see it.
pub proof fn lemma_recorded_call_shown(call: Call, node: CallNode, shown: DebugCall)
    requires
        records(call, node),
        shows(call, false, shown),
    ensures
        shows_node(node, shown),
    decreases call,
{
    assert forall|i: int| 0 <= i < shown.calls@.len() && i < node.calls.len() implies shows_node(
        node.calls[i],
        #[trigger] shown.calls@[i],
    ) by {
        assert(records(call.calls@[i], node.calls[i]));
        assert(shows(call.calls@[i], false, shown.calls@[i]));
        lemma_recorded_call_shown(call.calls@[i], node.calls[i], shown.calls@[i]);
    }
}

fn same_frame(parent: Option<usize>, frame: usize) -> (same: bool)
    ensures
        same == (parent == Some(frame)),
{
    match parent {
        Some(p) => p == frame,
        None => false,
    }
}

/// Builds the calls that `parent` made among the frames from `start` on.
pub fn build_calls(frames: &Vec<TracedFrame>, parent: usize, start: usize) -> (calls: Vec<Call>)
    requires
        start <= frames.len(),
    ensures
        calls@.len() == calls_between(
            frames@,
            parent,
            start as int,
            frames@.len() as int,
        ).len(),
        forall|i: int|
            0 <= i < calls@.len() ==> records(
                #[trigger] calls@[i],
                calls_between(frames@, parent, start as int, frames@.len() as int)[i],
            ),
    decreases frames.len() - start,
{
    let mut calls: Vec<Call> = Vec::new();
    let mut end: usize = start;
    while end < frames.len()
        invariant
            start <= end <= frames.len(),
            calls@.len() == calls_between(frames@, parent, start as int, end as int).len(),
            forall|i: int|
                0 <= i < calls@.len() ==> records(
                    #[trigger] calls@[i],
                    calls_between(frames@, parent, start as int, end as int)[i],
                ),
        decreases frames.len() - end,
    {
        let frame = frames[end];
        if same_frame(frame.parent, parent) {
            let below = build_calls(frames, frame.frame, end + 1);
            let error = if frame.reverted {
                Some("reverted".to_string())
            } else {
                None
            };
            calls.push(
                Call {
                    kind: CallType::Call(FarCallOpcode::Normal),
                    from: 0,
                    to: 0,
                    parent_gas: 0,
                    gas: 0,
                    gas_used: 0,
                    value: 0,
                    input: Vec::new(),
                    output: Vec::new(),
                    error,
                    revert_reason: None,
                    calls: below,
                },
            );
        }
        end = end + 1;
    }
    calls
}

/// What the tracer holds after one more callback: the frames of the latest
/// transaction, in the order of opening.
pub open spec fn observe(frames: Seq<TracedFrame>, event: TraceEvent) -> Seq<TracedFrame> {
    match event {
        TraceEvent::TxStarted { .. } => Seq::empty(),
        TraceEvent::Frame { frame, parent, reverted } => frames.push(
            TracedFrame { frame, parent, reverted },
        ),
        TraceEvent::TxFinished { .. } => frames,
    }
}

/// What the tracer holds after `events`, one after the other.
pub open spec fn observe_all(frames: Seq<TracedFrame>, events: Seq<TraceEvent>) -> Seq<
    TracedFrame,
>
    decreases events.len(),
{
    if events.len() == 0 {
        frames
    } else {
        observe(observe_all(frames, events.drop_last()), events.last())
    }
}

/// The calls that the transaction whose frames are `frames` made from its
/// own frame, each with the calls below it.
pub open spec fn traced_calls(frames: Seq<TracedFrame>) -> Seq<CallNode> {
    if frames.len() == 0 {
        Seq::empty()
    } else {
        calls_between(frames, frames[0].frame, 1, frames.len() as int)
    }
}

/// An observer that collects the call frames of the latest transaction.
pub struct CallTracer {
    frames: Vec<TracedFrame>,
}

impl View for CallTracer {
    type V = Seq<TracedFrame>;

    closed spec fn view(&self) -> Seq<TracedFrame> {
        self.frames@
    }
}

impl CallTracer {
    pub fn new() -> (tracer: Self)
        ensures
            tracer@ == Seq::<TracedFrame>::empty(),
    {
        CallTracer { frames: Vec::new() }
    }

    /// Takes one callback in.
    pub fn record(&mut self, event: &TraceEvent)
        ensures
            final(self)@ == observe(old(self)@, *event),
    {
        match event {
            TraceEvent::TxStarted { .. } => {
                self.frames.clear();
            },
            TraceEvent::Frame { frame, parent, reverted } => {
                self.frames.push(
                    TracedFrame { frame: *frame, parent: *parent, reverted: *reverted },
                );
            },
            TraceEvent::TxFinished { .. } => {},
        }
    }

    /// The calls that the latest transaction made from its own frame, each
    /// with the calls below it; none if no transaction was seen.
    pub fn calls(&self) -> (calls: Vec<Call>)
        ensures
            calls@.len() == traced_calls(self@).len(),
            forall|i: int|
                0 <= i < calls@.len() ==> records(#[trigger] calls@[i], traced_calls(self@)[i]),
    {
        if self.frames.len() == 0 {
            Vec::new()
        } else {
            build_calls(&self.frames, self.frames[0].frame, 1)
        }
    }
}

impl Tracer for CallTracer {
    open spec fn told(&self, event: TraceEvent, later: &Self) -> bool {
        later@ == observe(self@, event)
    }

    /// Takes the callback in: the start of a transaction clears the frames
    /// held, a frame is added behind them, the end of a transaction leaves
    /// them.
    fn notify(&mut self, event: &TraceEvent)
        ensures
            final(self)@ == observe(old(self)@, *event),
    {
        self.record(event);
    }
}

proof fn lemma_states_observe(states: Seq<CallTracer>, events: Seq<TraceEvent>, count: int)
    requires
        crate::tracer::telling(states, events),
        0 <= count <= events.len(),
    ensures
        states[count]@ == observe_all(states[0]@, events.take(count)),
    decreases count,
{
    if count > 0 {
        lemma_states_observe(states, events, count - 1);
        assert(states[count - 1].told(events[count - 1], &states[count]));
        assert(events.take(count).drop_last() =~= events.take(count - 1));
    }
}

/// A call tracer that has been told of `events` holds what they leave.
pub proof fn lemma_call_tracer_told(
    tracer: CallTracer,
    events: Seq<TraceEvent>,
    later: CallTracer,
)
    requires
        crate::tracer::told_all(tracer, events, later),
    ensures
        later@ == observe_all(tracer@, events),
{
    let states = choose|states: Seq<CallTracer>| #[trigger]
        crate::tracer::telling(states, events) && states.first() == tracer && states.last()
            == later;
    lemma_states_observe(states, events, events.len() as int);
    assert(events.take(events.len() as int) =~= events);
}

} // verus!
