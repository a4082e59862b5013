//! Observers of the execution and the dispatcher that fans callbacks out to
//! them.

use crate::results::TxOutcome;
use vstd::prelude::*;

verus! {

/// What observers are told. The callbacks of a transaction come once it has
/// been wound up, in this order: its start, one `Frame` for each call frame
/// that it opened, in the order of opening, and its end.
#[derive(Clone, Copy, Debug, PartialEq, Eq, Structural)]
pub enum TraceEvent {
    TxStarted { tx_number: u64, gas_limit: u32 },
    Frame { frame: usize, parent: Option<usize>, reverted: bool },
    TxFinished { tx_number: u64, outcome: TxOutcome, gas_used: u32 },
}

/// An observer of the execution. It is handed what happened; it has no hand
/// in it.
pub trait Tracer {
    /// Whether `later` is this observer after it has been told of `event`.
    /// An observer that says nothing of itself leaves this as it is.
    open spec fn told(&self, event: TraceEvent, later: &Self) -> bool {
        true
    }

    fn notify(&mut self, event: &TraceEvent)
        ensures
            old(self).told(*event, final(self)),
    ;
}

/// Whether `states` are what an observer is, one after the other, while it
/// is told of `events`: one state before each callback and one after the
/// last.
pub open spec fn telling<T: Tracer>(states: Seq<T>, events: Seq<TraceEvent>) -> bool {
    &&& states.len() == events.len() + 1
    &&& forall|i: int|
        0 <= i < events.len() ==> (#[trigger] states[i]).told(events[i], &states[i + 1])
}

/// Whether `later` is `observer` after it has been told of `events`, one
/// after the other.
pub open spec fn told_all<T: Tracer>(observer: T, events: Seq<TraceEvent>, later: T) -> bool {
    exists|states: Seq<T>| #[trigger]
        telling(states, events) && states.first() == observer && states.last() == later
}

/// An observer told of nothing is as it was.
pub proof fn lemma_told_nothing<T: Tracer>(observer: T)
    ensures
        told_all(observer, Seq::empty(), observer),
{
    let states = seq![observer];
    assert(telling(states, Seq::<TraceEvent>::empty()));
}

/// An observer told of some callbacks and then of others has been told of
/// them all.
pub proof fn lemma_told_in_turn<T: Tracer>(
    observer: T,
    first: Seq<TraceEvent>,
    between: T,
    second: Seq<TraceEvent>,
    later: T,
)
    requires
        told_all(observer, first, between),
        told_all(between, second, later),
    ensures
        told_all(observer, first + second, later),
{
    let before = choose|states: Seq<T>| #[trigger]
        telling(states, first) && states.first() == observer && states.last() == between;
    let after = choose|states: Seq<T>| #[trigger]
        telling(states, second) && states.first() == between && states.last() == later;
    let states = before + after.skip(1);
    let events = first + second;
    assert forall|i: int| 0 <= i < events.len() implies (#[trigger] states[i]).told(
        events[i],
        &states[i + 1],
    ) by {
        if i < first.len() {
            assert(before[i].told(first[i], &before[i + 1]));
            if i + 1 == first.len() {
                assert(states[i + 1] == after[0]);
            }
        } else {
            let j = i - first.len();
            assert(after[j].told(second[j], &after[j + 1]));
            assert(states[i] == after[j]);
        }
    }
    assert(telling(states, events));
}

/// An observer told of some callbacks and then of one more has been told of
/// them all.
pub proof fn lemma_told_one_more<T: Tracer>(
    observer: T,
    events: Seq<TraceEvent>,
    between: T,
    event: TraceEvent,
    later: T,
)
    requires
        told_all(observer, events, between),
        between.told(event, &later),
    ensures
        told_all(observer, events.push(event), later),
{
    let step = seq![between, later];
    assert(telling(step, seq![event]));
    lemma_told_in_turn(observer, events, between, seq![event], later);
    assert(events + seq![event] =~= events.push(event));
}

/// Forwards each callback to the attached observers, in the order in which
/// they were attached.
pub struct TracerDispatcher<T: Tracer> {
    tracers: Vec<T>,
    dispatched: Ghost<Seq<TraceEvent>>,
}

impl<T: Tracer> TracerDispatcher<T> {
    /// The number of attached observers.
    pub closed spec fn count(&self) -> nat {
        self.tracers@.len()
    }

    /// The attached observers, in the order in which they were attached.
    pub closed spec fn tracers(&self) -> Seq<T> {
        self.tracers@
    }

    /// The callbacks forwarded so far, oldest first. Each of them went to
    /// every observer attached at the time.
    pub closed spec fn dispatched(&self) -> Seq<TraceEvent> {
        self.dispatched@
    }

    /// Whether `later` is this dispatcher after it has forwarded `events`:
    /// the same observers in the same order, each told of every one of the
    /// events, one after the other.
    pub open spec fn forwarded(&self, events: Seq<TraceEvent>, later: &Self) -> bool {
        &&& later.count() == self.count()
        &&& later.tracers().len() == self.tracers().len()
        &&& later.dispatched() == self.dispatched() + events
        &&& forall|k: int|
            0 <= k < self.tracers().len() ==> told_all(
                #[trigger] self.tracers()[k],
                events,
                later.tracers()[k],
            )
    }

    /// A dispatcher that forwards nothing stays as it is.
    pub proof fn lemma_forwarded_nothing(&self)
        ensures
            self.forwarded(Seq::empty(), self),
    {
        assert forall|k: int| 0 <= k < self.tracers().len() implies told_all(
            #[trigger] self.tracers()[k],
            Seq::empty(),
            self.tracers()[k],
        ) by {
            lemma_told_nothing(self.tracers()[k]);
        }
        assert(self.dispatched() + Seq::<TraceEvent>::empty() =~= self.dispatched());
    }

    /// What a dispatcher forwards in turn, it has forwarded.
    pub proof fn lemma_forwarded_in_turn(
        &self,
        first: Seq<TraceEvent>,
        between: &Self,
        second: Seq<TraceEvent>,
        later: &Self,
    )
        requires
            self.forwarded(first, between),
            between.forwarded(second, later),
        ensures
            self.forwarded(first + second, later),
    {
        assert forall|k: int| 0 <= k < self.tracers().len() implies told_all(
            #[trigger] self.tracers()[k],
            first + second,
            later.tracers()[k],
        ) by {
            assert(told_all(between.tracers()[k], second, later.tracers()[k]));
            lemma_told_in_turn(
                self.tracers()[k],
                first,
                between.tracers()[k],
                second,
                later.tracers()[k],
            );
        }
        assert(self.dispatched() + (first + second) =~= (self.dispatched() + first) + second);
    }

    /// A dispatcher without observers.
    pub fn new() -> (dispatcher: Self)
        ensures
            dispatcher.count() == 0,
            dispatcher.tracers() == Seq::<T>::empty(),
            dispatcher.dispatched() == Seq::<TraceEvent>::empty(),
    {
        TracerDispatcher { tracers: Vec::new(), dispatched: Ghost(Seq::empty()) }
    }

    /// Attaches an observer behind those already attached.
    pub fn attach(&mut self, tracer: T)
        ensures
            final(self).tracers() == old(self).tracers().push(tracer),
            final(self).count() == old(self).count() + 1,
            final(self).dispatched() == old(self).dispatched(),
    {
        self.tracers.push(tracer);
    }

    /// The number of attached observers.
    pub fn len(&self) -> (count: usize)
        ensures
            count == self.count(),
    {
        self.tracers.len()
    }

    /// Tells every observer of `event`, in the order in which they were
    /// attached.
    pub fn notify(&mut self, event: &TraceEvent)
        ensures
            final(self).count() == old(self).count(),
            final(self).dispatched() == old(self).dispatched().push(*event),
            final(self).tracers().len() == old(self).tracers().len(),
            forall|k: int|
                0 <= k < old(self).count() ==> (#[trigger] old(self).tracers()[k]).told(
                    *event,
                    &final(self).tracers()[k],
                ),
            old(self).forwarded(seq![*event], final(self)),
    {
        let mut i: usize = 0;
        while i < self.tracers.len()
            invariant
                i <= self.tracers@.len(),
                self.tracers@.len() == old(self).tracers@.len(),
                self.dispatched == old(self).dispatched,
                forall|k: int|
                    0 <= k < i ==> (#[trigger] old(self).tracers@[k]).told(
                        *event,
                        &self.tracers@[k],
                    ),
                forall|k: int|
                    i <= k < self.tracers@.len() ==> self.tracers@[k] == old(self).tracers@[k],
            decreases self.tracers.len() - i,
        {
            self.tracers[i].notify(event);
            i = i + 1;
        }
        self.dispatched = Ghost(self.dispatched@.push(*event));
        proof {
            assert forall|k: int| 0 <= k < old(self).tracers().len() implies told_all(
                #[trigger] old(self).tracers()[k],
                seq![*event],
                self.tracers()[k],
            ) by {
                lemma_told_nothing(old(self).tracers()[k]);
                lemma_told_one_more(
                    old(self).tracers()[k],
                    Seq::empty(),
                    old(self).tracers()[k],
                    *event,
                    self.tracers()[k],
                );
                assert(Seq::<TraceEvent>::empty().push(*event) =~= seq![*event]);
            }
            assert(old(self).dispatched() + seq![*event] =~= old(self).dispatched().push(*event));
        }
    }

    /// Detaches the observers and hands them back, in the order in which they
    /// were attached.
    pub fn into_tracers(self) -> (tracers: Vec<T>)
        ensures
            tracers@ == self.tracers(),
            tracers@.len() == self.count(),
    {
        self.tracers
    }
}

} // verus!
