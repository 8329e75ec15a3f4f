use vstd::prelude::*;

use crate::event::{closed, Event};
use crate::observable::Observable;
use crate::observer::Observer;

verus! {

/// The stream has ended by completing.
pub open spec fn completes<T, E>(s: Seq<Event<T, E>>) -> bool {
    closed(s) && s.last() is Completed
}

/// The events of `first`, then, if `first` completed, those of `second` in
/// place of that completion.
pub open spec fn joined<T, E>(
    first: Seq<Event<T, E>>,
    second: Seq<Event<T, E>>,
    events: Seq<Event<T, E>>,
) -> bool {
    if completes(first) {
        events == first.drop_last() + second
    } else {
        events == first
    }
}

/// The handles of both upstream subscriptions; the second exists only once
/// the first source has completed, and not at all when the first fails.
/// Dropping this drops both handles together.
pub struct ContinuationSubscription<S1, S2> {
    pub first: S1,
    pub second: Option<S2>,
}

/// Everything `first` pushes, then, once it completes, everything `second`
/// pushes.
pub struct ContinueWith<'a, A, B> {
    first: &'a mut A,
    second: &'a mut B,
}

impl<'a, A, B> ContinueWith<'a, A, B> {
    pub closed spec fn first(&self) -> A {
        *self.first
    }

    pub closed spec fn second(&self) -> B {
        *self.second
    }

    pub fn new(first: &'a mut A, second: &'a mut B) -> (r: Self)
        ensures
            r.first() == *old(first),
            r.second() == *old(second),
    {
        ContinueWith { first, second }
    }
}

/// Passes values and failure on to `inner` but keeps completion back, so
/// that the downstream observer can go on with another source.
pub struct HoldCompletion<O> {
    inner: O,
    held: bool,
}

impl<T, E, O: Observer<T, E>> Observer<T, E> for HoldCompletion<O> {
    closed spec fn ready(&self) -> bool {
        &&& self.inner.ready()
        &&& !closed(self.inner.received()) || !self.held
        &&& !self.held ==> !(closed(self.inner.received()) && self.inner.received().last() is Completed)
    }

    closed spec fn received(&self) -> Seq<Event<T, E>> {
        if self.held {
            self.inner.received().push(Event::Completed)
        } else {
            self.inner.received()
        }
    }

    closed spec fn base(&self) -> Self {
        HoldCompletion { inner: self.inner.base(), held: false }
    }

    closed spec fn handles_errors(&self) -> bool {
        self.inner.handles_errors()
    }

    closed spec fn steady(&self) -> bool {
        self.inner.steady()
    }

    closed spec fn stays(&self) -> bool {
        self.inner.stays()
    }

    fn wants_more(&self) -> (r: bool) {
        self.inner.wants_more()
    }

    fn on_next(&mut self, item: T) {
        self.inner.on_next(item);
    }

    fn on_completed(&mut self) {
        self.held = true;
    }

    fn on_error(&mut self, error: E) {
        self.inner.on_error(error);
    }
}

impl<'a, A: Observable, B: Observable<Item = A::Item, Error = A::Error>> Observable for ContinueWith<
    'a,
    A,
    B,
> {
    type Item = A::Item;

    type Error = A::Error;

    type Subscription = ContinuationSubscription<A::Subscription, B::Subscription>;

    open spec fn produces(&self, events: Seq<Event<A::Item, A::Error>>) -> bool {
        exists|first_run: Seq<Event<A::Item, A::Error>>, second_run: Seq<Event<A::Item, A::Error>>|
            {
                &&& self.first().produces(first_run)
                &&& (completes(first_run) ==> self.second().produces(second_run))
                &&& #[trigger] joined(first_run, second_run, events)
            }
    }

    open spec fn may_fail(&self) -> bool {
        self.first().may_fail() || self.second().may_fail()
    }

    open spec fn valid(&self) -> bool {
        self.first().valid() && self.second().valid()
    }

    fn subscribe<O: Observer<A::Item, A::Error>>(&mut self, observer: O) -> (r: (
        Self::Subscription,
        O,
    )) {
        let ghost start = observer.received();
        let ghost second_before = *self.second;
        let gate = HoldCompletion { inner: observer, held: false };
        let (first, gate) = self.first.subscribe(gate);
        let ghost fr = gate.received().subrange(start.len() as int, gate.received().len() as int);
        assert(old(self).first().produces(fr));
        let HoldCompletion { inner, held } = gate;
        if held {
            let ghost mid = inner.received();
            assert(mid =~= start + fr.drop_last());
            let (second, out) = self.second.subscribe(inner);
            proof {
                let run = out.received().subrange(mid.len() as int, out.received().len() as int);
                let tail = out.received().subrange(start.len() as int, out.received().len() as int);
                assert(tail =~= fr.drop_last() + run);
                assert(joined(fr, run, tail));
                assert(old(self).produces(tail));
                assert(out.received().subrange(0, start.len() as int) =~= start);
            }
            (ContinuationSubscription { first, second: Some(second) }, out)
        } else {
            proof {
                let tail = inner.received().subrange(start.len() as int, inner.received().len() as int);
                assert(tail =~= fr);
                assert(joined(fr, Seq::empty(), tail));
                assert(old(self).produces(tail));
            }
            (ContinuationSubscription { first, second: None }, inner)
        }
    }
}

/// Which upstream an event comes from.
pub enum Side {
    First,
    Second,
}

/// The phase of a sequential composition: forwarding the first source,
/// forwarding the second, or finished.
pub enum Phase {
    First,
    Second,
    Terminated,
}

/// One step of sequential composition: the next phase, and what (if
/// anything) is passed downstream.
pub open spec fn concat_step<T, E>(phase: Phase, side: Side, event: Event<T, E>) -> (
    Phase,
    Option<Event<T, E>>,
) {
    match (phase, side) {
        (Phase::First, Side::First) => match event {
            Event::Next(x) => (Phase::First, Some(Event::Next(x))),
            Event::Completed => (Phase::Second, None),
            Event::Failed(e) => (Phase::Terminated, Some(Event::Failed(e))),
        },
        (Phase::Second, Side::Second) => match event {
            Event::Next(x) => (Phase::Second, Some(Event::Next(x))),
            Event::Completed => (Phase::Terminated, Some(Event::Completed)),
            Event::Failed(e) => (Phase::Terminated, Some(Event::Failed(e))),
        },
        (p, _) => (p, None),
    }
}

/// The state of a sequential composition whose two upstreams deliver events
/// on their own schedule (as subjects do).
pub struct Concat {
    phase: Phase,
}

impl Concat {
    pub closed spec fn phase(&self) -> Phase {
        self.phase
    }

    pub fn new() -> (r: Concat)
        ensures
            r.phase() == Phase::First,
    {
        Concat { phase: Phase::First }
    }

    /// Takes one event from `side`; returns what goes downstream. Events of
    /// the second source before the first completes are dropped, and
    /// nothing passes once terminated.
    pub fn step<T, E>(&mut self, side: Side, event: Event<T, E>) -> (r: Option<Event<T, E>>)
        ensures
            (final(self).phase(), r) == concat_step(old(self).phase(), side, event),
    {
        match (&self.phase, side) {
            (Phase::First, Side::First) => match event {
                Event::Next(x) => Some(Event::Next(x)),
                Event::Completed => {
                    self.phase = Phase::Second;
                    None
                },
                Event::Failed(e) => {
                    self.phase = Phase::Terminated;
                    Some(Event::Failed(e))
                },
            },
            (Phase::Second, Side::Second) => match event {
                Event::Next(x) => Some(Event::Next(x)),
                Event::Completed => {
                    self.phase = Phase::Terminated;
                    Some(Event::Completed)
                },
                Event::Failed(e) => {
                    self.phase = Phase::Terminated;
                    Some(Event::Failed(e))
                },
            },
            _ => None,
        }
    }

    /// Disposes the composition, in whatever phase: nothing passes
    /// downstream any more. (The upstream handles are the caller's to drop
    /// or end at the same time.)
    pub fn dispose(&mut self)
        ensures
            final(self).phase() is Terminated,
    {
        self.phase = Phase::Terminated;
    }

    /// Takes one event from `side` and pushes what passes into `observer`.
    pub fn forward<T, E, O: Observer<T, E>>(&mut self, side: Side, event: Event<T, E>, observer: &mut O)
        requires
            old(observer).ready(),
            old(self).phase() is Terminated || !closed(old(observer).received()),
            event is Failed ==> old(observer).handles_errors(),
        ensures
            final(observer).ready(),
            final(observer).base() == old(observer).base(),
            final(observer).handles_errors() == old(observer).handles_errors(),
            ({
                let (phase, out) = concat_step(old(self).phase(), side, event);
                &&& final(self).phase() == phase
                &&& final(observer).received() == match out {
                    Some(e) => old(observer).received().push(e),
                    None => old(observer).received(),
                }
            }),
    {
        match self.step(side, event) {
            Some(Event::Next(x)) => observer.on_next(x),
            Some(Event::Completed) => observer.on_completed(),
            Some(Event::Failed(e)) => observer.on_error(e),
            None => {},
        }
    }

    pub fn is_terminated(&self) -> (r: bool)
        ensures
            r == (self.phase() is Terminated),
    {
        match self.phase {
            Phase::Terminated => true,
            _ => false,
        }
    }
}

/// A terminal event passes downstream at most once: passing one ends in
/// the terminated phase, and nothing passes from there.
pub proof fn lemma_concat_terminal_once<T, E>(phase: Phase, side: Side, event: Event<T, E>)
    ensures
        ({
            let (next, out) = concat_step(phase, side, event);
            &&& (out is Some && !(out->0 is Next)) ==> next is Terminated
            &&& phase is Terminated ==> next is Terminated && out is None
        }),
{
}

} // verus!
