//! The event sink: raw events and outbound messages as they are emitted,
//! each tagged with the call frame that produced it, and the reconciliation
//! that drops what reverted frames produced.

use vstd::prelude::*;

verus! {

/// An emission as the interpreter produced it.
#[derive(Clone, Copy, Debug, PartialEq, Eq, Structural)]
pub struct RawEvent {
    /// The call frame that produced it.
    pub frame: usize,
    /// Its position among all emissions of the batch.
    pub sequence: u64,
    pub tx_number: u64,
    /// Whether it is an outbound cross-layer message rather than an event.
    pub is_message: bool,
    pub address: u64,
    pub key: u64,
    pub value: u64,
}

/// What the sink knows of a call frame: the frame that opened it, if any,
/// and whether it was reverted.
#[derive(Clone, Copy, Debug, PartialEq, Eq, Structural)]
pub struct FrameRecord {
    pub parent: Option<usize>,
    pub reverted: bool,
}

/// An event as the batch publishes it.
#[derive(Clone, Copy, Debug, PartialEq, Eq, Structural)]
pub struct VmEvent {
    pub batch_number: u32,
    pub tx_number: u64,
    pub address: u64,
    pub topic: u64,
    pub value: u64,
}

/// An outbound cross-layer message as the batch publishes it.
#[derive(Clone, Copy, Debug, PartialEq, Eq, Structural)]
pub struct UserL2ToL1Log {
    pub tx_number: u64,
    pub sender: u64,
    pub key: u64,
    pub value: u64,
}

/// Whether neither `frame` nor any frame above it was reverted.
pub open spec fn frame_survives(frames: Seq<FrameRecord>, frame: int) -> bool
    decreases frame,
{
    if frame < 0 || frame >= frames.len() {
        false
    } else if frames[frame].reverted {
        false
    } else {
        match frames[frame].parent {
            Some(parent) => if parent < frame {
                frame_survives(frames, parent as int)
            } else {
                true
            },
            None => true,
        }
    }
}

/// Whether `ancestor` is `frame` or a frame above it.
pub open spec fn on_path(frames: Seq<FrameRecord>, frame: int, ancestor: int) -> bool
    decreases frame,
{
    if frame < 0 || frame >= frames.len() {
        false
    } else if frame == ancestor {
        true
    } else {
        match frames[frame].parent {
            Some(parent) => parent < frame && on_path(frames, parent as int, ancestor),
            None => false,
        }
    }
}

/// A surviving frame has no reverted frame on its path to the root.
pub proof fn lemma_survivor_has_no_reverted_ancestor(
    frames: Seq<FrameRecord>,
    frame: int,
    ancestor: int,
)
    requires
        frame_survives(frames, frame),
        on_path(frames, frame, ancestor),
    ensures
        0 <= ancestor < frames.len(),
        !frames[ancestor].reverted,
    decreases frame,
{
    if frame != ancestor {
        lemma_survivor_has_no_reverted_ancestor(
            frames,
            frames[frame].parent.unwrap() as int,
            ancestor,
        );
    }
}

pub open spec fn is_event(event: RawEvent) -> bool {
    !event.is_message
}

pub open spec fn is_message(event: RawEvent) -> bool {
    event.is_message
}

/// Those of `raw` whose frame survives, in their order.
pub open spec fn survivors(frames: Seq<FrameRecord>, raw: Seq<RawEvent>) -> Seq<RawEvent> {
    raw.filter(|event: RawEvent| frame_survives(frames, event.frame as int))
}

pub open spec fn vm_event(event: RawEvent, batch_number: u32) -> VmEvent {
    VmEvent {
        batch_number,
        tx_number: event.tx_number,
        address: event.address,
        topic: event.key,
        value: event.value,
    }
}

pub open spec fn user_log(event: RawEvent) -> UserL2ToL1Log {
    UserL2ToL1Log {
        tx_number: event.tx_number,
        sender: event.address,
        key: event.key,
        value: event.value,
    }
}

/// What the sink is, to its users.
pub struct EventSinkView {
    pub events: Seq<RawEvent>,
    pub frames: Seq<FrameRecord>,
}

impl EventSinkView {
    /// Frames are opened by earlier frames, and every emission names a frame
    /// and carries its own position.
    pub open spec fn wf(self) -> bool {
        &&& forall|i: int|
            0 <= i < self.frames.len() ==> ((#[trigger] self.frames[i]).parent matches Some(parent)
                ==> parent < i)
        &&& forall|j: int|
            0 <= j < self.events.len() ==> (#[trigger] self.events[j]).frame < self.frames.len()
                && self.events[j].sequence == j as u64
    }

    /// The events that the batch publishes: those whose frame survives, in
    /// the order of emission, under the batch's number.
    pub open spec fn finalized_events(self, batch_number: u32) -> Seq<VmEvent> {
        survivors(self.frames, self.events.filter(|event: RawEvent| is_event(event))).map_values(
            |event: RawEvent| vm_event(event, batch_number),
        )
    }

    /// The outbound messages that the batch publishes.
    pub open spec fn finalized_messages(self) -> Seq<UserL2ToL1Log> {
        survivors(
            self.frames,
            self.events.filter(|event: RawEvent| is_message(event)),
        ).map_values(|event: RawEvent| user_log(event))
    }

    /// The emissions from position `from` on.
    pub open spec fn since(self, from: int) -> Seq<RawEvent> {
        if 0 <= from <= self.events.len() {
            self.events.skip(from)
        } else {
            Seq::empty()
        }
    }

    /// The events among the emissions from position `from` on that the batch
    /// publishes.
    pub open spec fn finalized_events_since(self, from: int, batch_number: u32) -> Seq<VmEvent> {
        survivors(
            self.frames,
            self.since(from).filter(|event: RawEvent| is_event(event)),
        ).map_values(|event: RawEvent| vm_event(event, batch_number))
    }

    /// The outbound messages among the emissions from position `from` on
    /// that the batch publishes.
    pub open spec fn finalized_messages_since(self, from: int) -> Seq<UserL2ToL1Log> {
        survivors(
            self.frames,
            self.since(from).filter(|event: RawEvent| is_message(event)),
        ).map_values(|event: RawEvent| user_log(event))
    }

    pub open spec fn with_frame(self, parent: Option<usize>) -> EventSinkView {
        EventSinkView { frames: self.frames.push(FrameRecord { parent, reverted: false }), ..self }
    }

    pub open spec fn with_reverted(self, frame: int) -> EventSinkView {
        EventSinkView {
            frames: self.frames.update(
                frame,
                FrameRecord { reverted: true, ..self.frames[frame] },
            ),
            ..self
        }
    }

    pub open spec fn with_emission(
        self,
        frame: usize,
        tx_number: u64,
        is_message: bool,
        address: u64,
        key: u64,
        value: u64,
    ) -> EventSinkView {
        EventSinkView {
            events: self.events.push(
                RawEvent {
                    frame,
                    sequence: self.events.len() as u64,
                    tx_number,
                    is_message,
                    address,
                    key,
                    value,
                },
            ),
            ..self
        }
    }
}

/// Accumulates the emissions of a batch.
pub struct EventSink {
    events: Vec<RawEvent>,
    frames: Vec<FrameRecord>,
}

impl View for EventSink {
    type V = EventSinkView;

    closed spec fn view(&self) -> EventSinkView {
        EventSinkView { events: self.events@, frames: self.frames@ }
    }
}

impl EventSink {
    /// A sink with no frame and no emission.
    pub fn new() -> (sink: Self)
        ensures
            sink@.wf(),
            sink@.events.len() == 0,
            sink@.frames.len() == 0,
    {
        EventSink { events: Vec::new(), frames: Vec::new() }
    }

    /// Registers a call frame opened by `parent` and returns its identity.
    pub fn open_frame(&mut self, parent: Option<usize>) -> (frame: usize)
        requires
            old(self)@.wf(),
            parent matches Some(p) ==> p < old(self)@.frames.len(),
        ensures
            final(self)@.wf(),
            final(self)@ == old(self)@.with_frame(parent),
            frame == old(self)@.frames.len(),
    {
        let frame = self.frames.len();
        self.frames.push(FrameRecord { parent, reverted: false });
        proof {
            assert forall|i: int| 0 <= i < self.frames@.len() implies ((
            #[trigger] self.frames@[i]).parent matches Some(parent) ==> parent < i) by {
                if i < frame {
                    assert(self.frames@[i] == old(self)@.frames[i]);
                }
            }
            assert forall|j: int| 0 <= j < self.events@.len() implies (
            #[trigger] self.events@[j]).frame < self.frames@.len() && self.events@[j].sequence
                == j as u64 by {
                assert(self.events@[j] == old(self)@.events[j]);
            }
        }
        frame
    }

    /// Marks a call frame as reverted.
    pub fn mark_reverted(&mut self, frame: usize)
        requires
            old(self)@.wf(),
            frame < old(self)@.frames.len(),
        ensures
            final(self)@.wf(),
            final(self)@ == old(self)@.with_reverted(frame as int),
    {
        let record = self.frames[frame];
        self.frames.set(frame, FrameRecord { parent: record.parent, reverted: true });
        proof {
            assert forall|i: int| 0 <= i < self.frames@.len() implies ((
            #[trigger] self.frames@[i]).parent matches Some(parent) ==> parent < i) by {
                assert(self.frames@[i].parent == old(self)@.frames[i].parent);
            }
            assert forall|j: int| 0 <= j < self.events@.len() implies (
            #[trigger] self.events@[j]).frame < self.frames@.len() && self.events@[j].sequence
                == j as u64 by {
                assert(self.events@[j] == old(self)@.events[j]);
            }
        }
    }

    /// Records an emission of `frame`.
    pub fn emit(
        &mut self,
        frame: usize,
        tx_number: u64,
        is_message: bool,
        address: u64,
        key: u64,
        value: u64,
    )
        requires
            old(self)@.wf(),
            frame < old(self)@.frames.len(),
        ensures
            final(self)@.wf(),
            final(self)@ == old(self)@.with_emission(
                frame,
                tx_number,
                is_message,
                address,
                key,
                value,
            ),
    {
        let sequence = self.events.len() as u64;
        self.events.push(
            RawEvent { frame, sequence, tx_number, is_message, address, key, value },
        );
        proof {
            assert forall|j: int| 0 <= j < self.events@.len() implies (
            #[trigger] self.events@[j]).frame < self.frames@.len() && self.events@[j].sequence
                == j as u64 by {
                if j < old(self)@.events.len() {
                    assert(self.events@[j] == old(self)@.events[j]);
                }
            }
        }
    }

    /// How many frames were registered.
    pub fn frame_count(&self) -> (count: usize)
        ensures
            count == self@.frames.len(),
    {
        self.frames.len()
    }

    /// How many emissions were recorded.
    pub fn event_count(&self) -> (count: usize)
        ensures
            count == self@.events.len(),
    {
        self.events.len()
    }

    /// Whether neither `frame` nor any frame above it was reverted.
    pub fn survives(&self, frame: usize) -> (alive: bool)
        requires
            self@.wf(),
        ensures
            alive == frame_survives(self@.frames, frame as int),
    {
        if frame >= self.frames.len() {
            return false;
        }
        let mut current: usize = frame;
        loop
            invariant
                self@.wf(),
                current < self.frames.len(),
                frame_survives(self@.frames, frame as int) == frame_survives(
                    self@.frames,
                    current as int,
                ),
            decreases current,
        {
            let record = self.frames[current];
            if record.reverted {
                return false;
            }
            match record.parent {
                Some(parent) => {
                    current = parent;
                },
                None => {
                    return true;
                },
            }
        }
    }

    /// What the sink knows of `frame`.
    pub fn frame(&self, frame: usize) -> (record: FrameRecord)
        requires
            frame < self@.frames.len(),
        ensures
            record == self@.frames[frame as int],
    {
        self.frames[frame]
    }

    /// Splits the emissions from position `from` on into events and
    /// outbound messages, each in the order of emission.
    pub fn flatten_since(&self, from: usize) -> (parts: (Vec<RawEvent>, Vec<RawEvent>))
        ensures
            parts.0@ == self@.since(from as int).filter(|event: RawEvent| is_event(event)),
            parts.1@ == self@.since(from as int).filter(|event: RawEvent| is_message(event)),
    {
        let mut events: Vec<RawEvent> = Vec::new();
        let mut messages: Vec<RawEvent> = Vec::new();
        let ghost event_kind = |event: RawEvent| is_event(event);
        let ghost message_kind = |event: RawEvent| is_message(event);
        let ghost all = self@.since(from as int);
        if from > self.events.len() {
            proof {
                assert(all.filter(event_kind) =~= Seq::<RawEvent>::empty()) by {
                    all.lemma_filter_len(event_kind);
                }
                assert(all.filter(message_kind) =~= Seq::<RawEvent>::empty()) by {
                    all.lemma_filter_len(message_kind);
                }
            }
            return (events, messages);
        }
        let mut i: usize = from;
        proof {
            assert(all.take(0).filter(event_kind) =~= Seq::<RawEvent>::empty()) by {
                all.take(0).lemma_filter_len(event_kind);
            }
            assert(all.take(0).filter(message_kind) =~= Seq::<RawEvent>::empty()) by {
                all.take(0).lemma_filter_len(message_kind);
            }
        }
        while i < self.events.len()
            invariant
                from <= i <= self.events.len(),
                all == self@.since(from as int),
                all.len() == self.events.len() - from,
                event_kind == |event: RawEvent| is_event(event),
                message_kind == |event: RawEvent| is_message(event),
                events@ == all.take(i - from).filter(event_kind),
                messages@ == all.take(i - from).filter(message_kind),
            decreases self.events.len() - i,
        {
            let event = self.events[i];
            proof {
                assert(all.take(i + 1 - from) =~= all.take(i - from).push(event));
                all.take(i - from).lemma_filter_push(event, event_kind);
                all.take(i - from).lemma_filter_push(event, message_kind);
            }
            if event.is_message {
                messages.push(event);
            } else {
                events.push(event);
            }
            i = i + 1;
        }
        proof {
            assert(all.take(i - from) =~= all);
        }
        (events, messages)
    }

    /// Splits the emissions into events and outbound messages, each in the
    /// order of emission.
    pub fn flatten(&self) -> (parts: (Vec<RawEvent>, Vec<RawEvent>))
        ensures
            parts.0@ == self@.events.filter(|event: RawEvent| is_event(event)),
            parts.1@ == self@.events.filter(|event: RawEvent| is_message(event)),
    {
        proof {
            assert(self@.since(0) =~= self@.events);
        }
        self.flatten_since(0)
    }

    /// Keeps those of `raw` whose frame survives, in their order.
    pub fn merge_events(&self, raw: &Vec<RawEvent>) -> (merged: Vec<RawEvent>)
        requires
            self@.wf(),
        ensures
            merged@ == survivors(self@.frames, raw@),
    {
        let mut merged: Vec<RawEvent> = Vec::new();
        let ghost alive = |event: RawEvent| frame_survives(self@.frames, event.frame as int);
        let mut i: usize = 0;
        while i < raw.len()
            invariant
                self@.wf(),
                i <= raw.len(),
                alive == |event: RawEvent| frame_survives(self@.frames, event.frame as int),
                merged@ == raw@.take(i as int).filter(alive),
            decreases raw.len() - i,
        {
            let event = raw[i];
            proof {
                assert(raw@.take(i + 1) =~= raw@.take(i as int).push(event));
                raw@.take(i as int).lemma_filter_push(event, alive);
            }
            if self.survives(event.frame) {
                merged.push(event);
            }
            i = i + 1;
        }
        proof {
            assert(raw@.take(i as int) =~= raw@);
        }
        merged
    }

    /// A copy of the sink.
    pub fn duplicate(&self) -> (copy: Self)
        ensures
            copy@ == self@,
    {
        EventSink { events: self.events.clone(), frames: self.frames.clone() }
    }
}

/// Publishes surviving raw events under the batch's number.
pub fn into_vm_events(merged: &Vec<RawEvent>, batch_number: u32) -> (events: Vec<VmEvent>)
    ensures
        events@ == merged@.map_values(|event: RawEvent| vm_event(event, batch_number)),
{
    let mut events: Vec<VmEvent> = Vec::new();
    let mut i: usize = 0;
    while i < merged.len()
        invariant
            i <= merged.len(),
            events@ == merged@.take(i as int).map_values(
                |event: RawEvent| vm_event(event, batch_number),
            ),
        decreases merged.len() - i,
    {
        let event = merged[i];
        events.push(
            VmEvent {
                batch_number,
                tx_number: event.tx_number,
                address: event.address,
                topic: event.key,
                value: event.value,
            },
        );
        i = i + 1;
    }
    events
}

/// Wraps surviving outbound messages as the entries that users see.
pub fn into_user_logs(merged: &Vec<RawEvent>) -> (logs: Vec<UserL2ToL1Log>)
    ensures
        logs@ == merged@.map_values(|event: RawEvent| user_log(event)),
{
    let mut logs: Vec<UserL2ToL1Log> = Vec::new();
    let mut i: usize = 0;
    while i < merged.len()
        invariant
            i <= merged.len(),
            logs@ == merged@.take(i as int).map_values(|event: RawEvent| user_log(event)),
        decreases merged.len() - i,
    {
        let event = merged[i];
        logs.push(
            UserL2ToL1Log {
                tx_number: event.tx_number,
                sender: event.address,
                key: event.key,
                value: event.value,
            },
        );
        i = i + 1;
    }
    logs
}

/// Every finalized event stems from an emission in a frame that was not
/// reverted and has no reverted frame above it; and all of them carry the
/// batch's number.
pub proof fn lemma_finalized_events_survive(sink: EventSinkView, batch_number: u32, i: int)
    requires
        0 <= i < sink.finalized_events(batch_number).len(),
    ensures
        sink.finalized_events(batch_number)[i].batch_number == batch_number,
        exists|j: int|
            0 <= j < sink.events.len() && !(#[trigger] sink.events[j]).is_message
                && sink.finalized_events(batch_number)[i] == vm_event(sink.events[j], batch_number)
                && frame_survives(sink.frames, sink.events[j].frame as int) && forall|ancestor: int|
                on_path(sink.frames, sink.events[j].frame as int, ancestor) ==> !(
                #[trigger] sink.frames[ancestor]).reverted,
{
    let kind = |event: RawEvent| is_event(event);
    let alive = |event: RawEvent| frame_survives(sink.frames, event.frame as int);
    let raw = sink.events.filter(kind);
    let merged = raw.filter(alive);
    let event = merged[i];
    raw.lemma_filter_pred(alive, i);
    raw.lemma_filter_contains_rev(alive, event);
    let k = choose|k: int| 0 <= k < raw.len() && raw[k] == event;
    sink.events.lemma_filter_pred(kind, k);
    sink.events.lemma_filter_contains_rev(kind, event);
    let j = choose|j: int| 0 <= j < sink.events.len() && sink.events[j] == event;
    assert(!sink.events[j].is_message && frame_survives(sink.frames, sink.events[j].frame as int));
    assert forall|ancestor: int| on_path(sink.frames, event.frame as int, ancestor) implies !(
    #[trigger] sink.frames[ancestor]).reverted by {
        lemma_survivor_has_no_reverted_ancestor(sink.frames, event.frame as int, ancestor);
    }
}

} // verus!
