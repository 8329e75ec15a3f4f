use vstd::prelude::*;

use crate::continuation::ContinueWith;
use crate::transform::{MapError, MapValues};
use crate::event::{closed, replay, Event};
use crate::observer::{
    CompletedObserver, ErrorObserver, NextObserver, Observer, OptionObserver, ResultObserver,
};

verus! {

/// `after` is `before` later on: ready still, the same apart from its
/// history, equally able to take failures, its history extended by a run that `run_ok` admits.
pub open spec fn extends<T, E, O: Observer<T, E>>(
    before: O,
    after: O,
    run_ok: spec_fn(Seq<Event<T, E>>) -> bool,
) -> bool {
    &&& after.ready()
    &&& after.base() == before.base()
    &&& after.handles_errors() == before.handles_errors()
    &&& before.received().len() <= after.received().len()
    &&& after.received().subrange(0, before.received().len() as int) == before.received()
    &&& run_ok(after.received().subrange(before.received().len() as int, after.received().len() as int))
}

/// A source of events. Subscribing an observer pushes into it one of the
/// runs that `produces` admits (for a live source, the part of it that
/// happens before `subscribe` returns).
pub trait Observable: Sized {
    type Item;

    type Error;

    type Subscription;

    /// `events` is what one subscription made now may push.
    spec fn produces(&self, events: Seq<Event<Self::Item, Self::Error>>) -> bool;

    /// Whether some run of this source fails.
    spec fn may_fail(&self) -> bool;

    /// The source can be subscribed to (a function it applies takes every
    /// input, say).
    spec fn valid(&self) -> bool;

    /// Subscribes `observer` and hands it back, with what it received
    /// meanwhile, beside the subscription.
    fn subscribe<O: Observer<Self::Item, Self::Error>>(&mut self, observer: O) -> (r: (
        Self::Subscription,
        O,
    ))
        requires
            old(self).valid(),
            observer.ready(),
            !closed(observer.received()),
            old(self).may_fail() ==> observer.handles_errors(),
        ensures
            extends(observer, r.1, |run| old(self).produces(run)),
    ;

    /// Subscribes a closure for values only; the source must not fail.
    /// Hands back the adapter, whose history is the run the source pushed,
    /// each value having gone through `on_next`.
    fn subscribe_next<F: FnMut(Self::Item)>(&mut self, on_next: F) -> (r: (
        Self::Subscription,
        NextObserver<Self::Item, Self::Error, F>,
    ))
        requires
            old(self).valid(),
            forall|x: Self::Item| call_requires(on_next, (x,)),
            !old(self).may_fail(),
        ensures
            old(self).produces(r.1.received()),
            r.1.handler() == on_next,
            r.1.handled(),
    {
        let observer = NextObserver::new(on_next);
        let ghost given = observer;
        let r = self.subscribe(observer);
        proof {
            r.1.lemma_handled(&given);
            assert(r.1.received().subrange(0, r.1.received().len() as int) =~= r.1.received());
        }
        r
    }

    /// Subscribes closures for values and completion; the source must not
    /// fail. Hands back the adapter, whose history is the run the source
    /// pushed, each event having gone through its closure.
    fn subscribe_completed<F: FnMut(Self::Item), G: FnOnce()>(
        &mut self,
        on_next: F,
        on_completed: G,
    ) -> (r: (Self::Subscription, CompletedObserver<Self::Item, Self::Error, F, G>))
        requires
            old(self).valid(),
            forall|x: Self::Item| call_requires(on_next, (x,)),
            call_requires(on_completed, ()),
            !old(self).may_fail(),
        ensures
            old(self).produces(r.1.received()),
            r.1.handler() == on_next,
            r.1.completion_handler() == on_completed,
            r.1.handled(),
    {
        let observer = CompletedObserver::new(on_next, on_completed);
        let ghost given = observer;
        let r = self.subscribe(observer);
        proof {
            r.1.lemma_handled(&given);
            assert(r.1.received().subrange(0, r.1.received().len() as int) =~= r.1.received());
        }
        r
    }

    /// Subscribes closures for values, completion and failure. Hands back
    /// the adapter, whose history is the run the source pushed, each event
    /// having gone through its closure.
    fn subscribe_error<F: FnMut(Self::Item), G: FnOnce(), H: FnOnce(Self::Error)>(
        &mut self,
        on_next: F,
        on_completed: G,
        on_error: H,
    ) -> (r: (Self::Subscription, ErrorObserver<Self::Item, Self::Error, F, G, H>))
        requires
            old(self).valid(),
            forall|x: Self::Item| call_requires(on_next, (x,)),
            call_requires(on_completed, ()),
            forall|e: Self::Error| call_requires(on_error, (e,)),
        ensures
            old(self).produces(r.1.received()),
            r.1.handler() == on_next,
            r.1.completion_handler() == on_completed,
            r.1.failure_handler() == on_error,
            r.1.handled(),
    {
        let observer = ErrorObserver::new(on_next, on_completed, on_error);
        let ghost given = observer;
        let r = self.subscribe(observer);
        proof {
            r.1.lemma_handled(&given);
            assert(r.1.received().subrange(0, r.1.received().len() as int) =~= r.1.received());
        }
        r
    }

    /// Subscribes one closure that sees `Some(value)` for each value and
    /// `None` on completion; the source must not fail. Hands back the
    /// adapter, whose history is the run the source pushed.
    fn subscribe_option<F: FnMut(Option<Self::Item>)>(&mut self, on_next_or_completed: F) -> (r: (
        Self::Subscription,
        OptionObserver<Self::Item, Self::Error, F>,
    ))
        requires
            old(self).valid(),
            forall|x: Option<Self::Item>| call_requires(on_next_or_completed, (x,)),
            !old(self).may_fail(),
        ensures
            old(self).produces(r.1.received()),
            r.1.handler() == on_next_or_completed,
            r.1.handled(),
    {
        let observer = OptionObserver::new(on_next_or_completed);
        let ghost given = observer;
        let r = self.subscribe(observer);
        proof {
            r.1.lemma_handled(&given);
            assert(r.1.received().subrange(0, r.1.received().len() as int) =~= r.1.received());
        }
        r
    }

    /// Subscribes one closure that sees `Ok(Some(value))`, `Ok(None)` on
    /// completion and `Err(error)` on failure. Hands back the adapter, whose
    /// history is the run the source pushed.
    fn subscribe_result<F: FnMut(Result<Option<Self::Item>, Self::Error>)>(
        &mut self,
        on_next_or_completed_or_error: F,
    ) -> (r: (Self::Subscription, ResultObserver<Self::Item, Self::Error, F>))
        requires
            old(self).valid(),
            forall|x: Result<Option<Self::Item>, Self::Error>|
                call_requires(on_next_or_completed_or_error, (x,)),
        ensures
            old(self).produces(r.1.received()),
            r.1.handler() == on_next_or_completed_or_error,
            r.1.handled(),
    {
        let observer = ResultObserver::new(on_next_or_completed_or_error);
        let ghost given = observer;
        let r = self.subscribe(observer);
        proof {
            r.1.lemma_handled(&given);
            assert(r.1.received().subrange(0, r.1.received().len() as int) =~= r.1.received());
        }
        r
    }

    /// This source with each value passed through `f`.
    fn map<U, F: Fn(Self::Item) -> U>(self, f: F) -> (r: MapValues<Self, F>)
        ensures
            r.source() == self,
            r.func() == f,
    {
        MapValues::new(self, f)
    }

    /// This source with each failure's error passed through `f`.
    fn map_error<D, F: Fn(Self::Error) -> D>(self, f: F) -> (r: MapError<Self, F>)
        ensures
            r.source() == self,
            r.func() == f,
    {
        MapError::new(self, f)
    }

    /// This source followed by `second`: see `ContinueWith`.
    fn continue_with<'a, B>(&'a mut self, second: &'a mut B) -> (r: ContinueWith<
        'a,
        Self,
        B,
    >)
        ensures
            r.first() == *old(self),
            r.second() == *old(second),
    {
        ContinueWith::new(self, second)
    }
}

/// The subscription of a source that has finished before `subscribe`
/// returns: there is nothing left to cancel.
pub struct UncancellableSubscription;

impl Drop for UncancellableSubscription {
    fn drop(&mut self)
        ensures
            *final(self) == *old(self),
        opens_invariants none
        no_unwind
    {
    }
}

/// The elements of a slice, each by reference.
pub open spec fn refs<'a, T>(s: &'a [T]) -> Seq<&'a T> {
    Seq::new(s@.len(), |i: int| &s@[i])
}

/// A slice pushes a reference to each element in order, then completes.
impl<'a, T> Observable for &'a [T] {
    type Item = &'a T;

    type Error = ();

    type Subscription = UncancellableSubscription;

    open spec fn produces(&self, events: Seq<Event<&'a T, ()>>) -> bool {
        events == replay::<&'a T, ()>(refs(*self))
    }

    open spec fn may_fail(&self) -> bool {
        false
    }

    open spec fn valid(&self) -> bool {
        true
    }

    fn subscribe<O: Observer<&'a T, ()>>(&mut self, observer: O) -> (r: (
        UncancellableSubscription,
        O,
    )) {
        let ghost start = observer.received();
        let ghost given = observer;
        let mut observer = observer;
        let s: &'a [T] = *self;
        let mut i: usize = 0;
        while i < s.len()
            invariant
                0 <= i <= s@.len(),
                observer.ready(),
                observer.handles_errors() == given.handles_errors(),
                observer.base() == given.base(),
                observer.received() == start + Seq::new(
                    i as nat,
                    |j: int| Event::<&'a T, ()>::Next(refs(s)[j]),
                ),
                !closed(start),
            decreases s@.len() - i,
        {
            observer.on_next(&s[i]);
            assert(observer.received() == start + Seq::new(
                (i + 1) as nat,
                |j: int| Event::<&'a T, ()>::Next(refs(s)[j]),
            ));
            i = i + 1;
        }
        observer.on_completed();
        assert(observer.received().subrange(0, start.len() as int) == start);
        assert(observer.received().subrange(start.len() as int, observer.received().len() as int)
            == replay::<&'a T, ()>(refs(s)));
        assert(s == *old(self));
        assert(old(self).produces(replay::<&'a T, ()>(refs(s))));
        (UncancellableSubscription, observer)
    }
}

/// What an optional value pushes: a copy of the value if there is one,
/// then completion.
pub open spec fn option_run<T: Clone>(o: Option<T>, events: Seq<Event<T, ()>>) -> bool {
    match o {
        Some(x) => {
            &&& events.len() == 2
            &&& events[0] is Next
            &&& cloned(x, events[0]->Next_0)
            &&& events[1] is Completed
        },
        None => events == seq![Event::<T, ()>::Completed],
    }
}

/// An optional value pushes a copy of its value, if any, then completes.
impl<T: Clone> Observable for Option<T> {
    type Item = T;

    type Error = ();

    type Subscription = UncancellableSubscription;

    open spec fn produces(&self, events: Seq<Event<T, ()>>) -> bool {
        option_run(*self, events)
    }

    open spec fn may_fail(&self) -> bool {
        false
    }

    open spec fn valid(&self) -> bool {
        true
    }

    fn subscribe<O: Observer<T, ()>>(&mut self, observer: O) -> (r: (
        UncancellableSubscription,
        O,
    )) {
        let ghost start = observer.received();
        let mut observer = observer;
        let me: &Option<T> = &*self;
        match me {
            Some(x) => {
                let c = x.clone();
                observer.on_next(c);
                observer.on_completed();
                assert(observer.received().subrange(start.len() as int, observer.received().len() as int)
                    =~= seq![Event::Next(c), Event::Completed]);
                assert(old(self).produces(observer.received().subrange(start.len() as int, observer.received().len() as int)));
            },
            None => {
                observer.on_completed();
                assert(observer.received().subrange(start.len() as int, observer.received().len() as int)
                    =~= seq![Event::Completed]);
                assert(old(self).produces(observer.received().subrange(start.len() as int, observer.received().len() as int)));
            },
        }
        assert(observer.received().subrange(0, start.len() as int) =~= start);
        (UncancellableSubscription, observer)
    }
}

/// What a two-armed result pushes: a copy of the value then completion, or
/// a failure with a copy of the error.
pub open spec fn result_run<T: Clone, E: Clone>(r: Result<T, E>, events: Seq<Event<T, E>>) -> bool {
    match r {
        Ok(x) => {
            &&& events.len() == 2
            &&& events[0] is Next
            &&& cloned(x, events[0]->Next_0)
            &&& events[1] is Completed
        },
        Err(e) => {
            &&& events.len() == 1
            &&& events[0] is Failed
            &&& cloned(e, events[0]->Failed_0)
        },
    }
}

/// A result pushes its value and completes, or fails with its error.
impl<T: Clone, E: Clone> Observable for Result<T, E> {
    type Item = T;

    type Error = E;

    type Subscription = UncancellableSubscription;

    open spec fn produces(&self, events: Seq<Event<T, E>>) -> bool {
        result_run(*self, events)
    }

    open spec fn may_fail(&self) -> bool {
        *self is Err
    }

    open spec fn valid(&self) -> bool {
        true
    }

    fn subscribe<O: Observer<T, E>>(&mut self, observer: O) -> (r: (
        UncancellableSubscription,
        O,
    )) {
        let ghost start = observer.received();
        let mut observer = observer;
        let me: &Result<T, E> = &*self;
        match me {
            Ok(x) => {
                let c = x.clone();
                observer.on_next(c);
                observer.on_completed();
                assert(observer.received().subrange(start.len() as int, observer.received().len() as int)
                    =~= seq![Event::Next(c), Event::Completed]);
                assert(old(self).produces(observer.received().subrange(start.len() as int, observer.received().len() as int)));
            },
            Err(e) => {
                let c = e.clone();
                observer.on_error(c);
                assert(observer.received().subrange(start.len() as int, observer.received().len() as int)
                    =~= seq![Event::Failed(c)]);
                assert(old(self).produces(observer.received().subrange(start.len() as int, observer.received().len() as int)));
            },
        }
        assert(observer.received().subrange(0, start.len() as int) =~= start);
        (UncancellableSubscription, observer)
    }
}

/// A source that never pushes anything, not even completion.
pub struct Never<T, E> {
    marker: core::marker::PhantomData<(T, E)>,
}

impl<T, E> Never<T, E> {
    pub fn new() -> Self {
        Never { marker: core::marker::PhantomData }
    }
}

impl<T, E> Observable for Never<T, E> {
    type Item = T;

    type Error = E;

    type Subscription = UncancellableSubscription;

    open spec fn produces(&self, events: Seq<Event<T, E>>) -> bool {
        events.len() == 0
    }

    open spec fn may_fail(&self) -> bool {
        false
    }

    open spec fn valid(&self) -> bool {
        true
    }

    fn subscribe<O: Observer<T, E>>(&mut self, observer: O) -> (r: (
        UncancellableSubscription,
        O,
    )) {
        let ghost h = observer.received();
        assert(h.subrange(0, h.len() as int) =~= h);
        assert(h.subrange(h.len() as int, h.len() as int) =~= Seq::<Event<T, E>>::empty());
        assert(old(self).produces(h.subrange(h.len() as int, h.len() as int)));
        (UncancellableSubscription, observer)
    }
}

} // verus!
