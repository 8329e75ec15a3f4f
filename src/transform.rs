use vstd::prelude::*;

use crate::event::{closed, Event};
use crate::observable::Observable;
use crate::observer::Observer;

verus! {

/// `events` is `run` with each value passed through `f`; completion and
/// failures are left as they are.
pub open spec fn values_mapped<A, B, E, F: Fn(A) -> B>(
    f: F,
    run: Seq<Event<A, E>>,
    events: Seq<Event<B, E>>,
) -> bool {
    &&& events.len() == run.len()
    &&& forall|i: int|
        0 <= i < run.len() ==> match #[trigger] run[i] {
            Event::Next(x) => events[i] is Next && call_ensures(f, (x,), events[i]->Next_0),
            Event::Completed => events[i] is Completed,
            Event::Failed(e) => events[i] is Failed && events[i]->Failed_0 == e,
        }
}

/// `events` is `run` with each failure's error passed through `f`; values
/// and completion are left as they are.
pub open spec fn errors_mapped<T, A, B, F: Fn(A) -> B>(
    f: F,
    run: Seq<Event<T, A>>,
    events: Seq<Event<T, B>>,
) -> bool {
    &&& events.len() == run.len()
    &&& forall|i: int|
        0 <= i < run.len() ==> match #[trigger] run[i] {
            Event::Next(x) => events[i] is Next && events[i]->Next_0 == x,
            Event::Completed => events[i] is Completed,
            Event::Failed(e) => events[i] is Failed && call_ensures(f, (e,), events[i]->Failed_0),
        }
}

/// Passes each value through `f` on its way to `inner`; completion and
/// failure go on unchanged.
#[verifier::reject_recursive_types(T)]
#[verifier::reject_recursive_types(U)]
pub struct ValueMapper<'b, T, U, E, O, F> {
    inner: O,
    f: &'b F,
    start: Ghost<Seq<Event<U, E>>>,
    history: Ghost<Seq<Event<T, E>>>,
}

impl<'b, T, U, E, O: Observer<U, E>, F: Fn(T) -> U> Observer<T, E> for ValueMapper<'b, T, U, E, O, F> {
    closed spec fn ready(&self) -> bool {
        &&& self.inner.ready()
        &&& forall|x: T| call_requires(*self.f, (x,))
        &&& !closed(self.start@)
        &&& self.start@.len() <= self.inner.received().len()
        &&& self.inner.received().subrange(0, self.start@.len() as int) == self.start@
        &&& values_mapped(*self.f, self.history@, self.inner.received().subrange(
            self.start@.len() as int,
            self.inner.received().len() as int,
        ))
        &&& closed(self.inner.received()) == closed(self.history@)
    }

    closed spec fn received(&self) -> Seq<Event<T, E>> {
        self.history@
    }

    closed spec fn base(&self) -> Self {
        ValueMapper { inner: self.inner.base(), f: self.f, start: self.start, history: Ghost(Seq::empty()) }
    }

    closed spec fn handles_errors(&self) -> bool {
        self.inner.handles_errors()
    }

    closed spec fn steady(&self) -> bool {
        self.inner.steady()
    }

    closed spec fn stays(&self) -> bool {
        self.inner.stays()
    }

    fn on_next(&mut self, item: T) {
        let ghost before = self.inner.received();
        let y = (self.f)(item);
        self.inner.on_next(y);
        self.history = Ghost(self.history@.push(Event::Next(item)));
        proof { lemma_extend(before, self.inner.received(), self.start@); }
    }

    fn wants_more(&self) -> (r: bool) {
        self.inner.wants_more()
    }

    fn on_completed(&mut self) {
        let ghost before = self.inner.received();
        self.inner.on_completed();
        self.history = Ghost(self.history@.push(Event::Completed));
        proof { lemma_extend(before, self.inner.received(), self.start@); }
    }

    fn on_error(&mut self, error: E) {
        let ghost before = self.inner.received();
        self.inner.on_error(error);
        self.history = Ghost(self.history@.push(Event::Failed(error)));
        proof { lemma_extend(before, self.inner.received(), self.start@); }
    }
}

/// Passes each failure's error through `f` on its way to `inner`; values
/// and completion go on unchanged.
#[verifier::reject_recursive_types(A)]
#[verifier::reject_recursive_types(B)]
pub struct ErrorMapper<'b, T, A, B, O, F> {
    inner: O,
    f: &'b F,
    start: Ghost<Seq<Event<T, B>>>,
    history: Ghost<Seq<Event<T, A>>>,
}

impl<'b, T, A, B, O: Observer<T, B>, F: Fn(A) -> B> Observer<T, A> for ErrorMapper<'b, T, A, B, O, F> {
    closed spec fn ready(&self) -> bool {
        &&& self.inner.ready()
        &&& forall|e: A| call_requires(*self.f, (e,))
        &&& !closed(self.start@)
        &&& self.start@.len() <= self.inner.received().len()
        &&& self.inner.received().subrange(0, self.start@.len() as int) == self.start@
        &&& errors_mapped(*self.f, self.history@, self.inner.received().subrange(
            self.start@.len() as int,
            self.inner.received().len() as int,
        ))
        &&& closed(self.inner.received()) == closed(self.history@)
    }

    closed spec fn received(&self) -> Seq<Event<T, A>> {
        self.history@
    }

    closed spec fn base(&self) -> Self {
        ErrorMapper { inner: self.inner.base(), f: self.f, start: self.start, history: Ghost(Seq::empty()) }
    }

    closed spec fn handles_errors(&self) -> bool {
        self.inner.handles_errors()
    }

    closed spec fn steady(&self) -> bool {
        self.inner.steady()
    }

    closed spec fn stays(&self) -> bool {
        self.inner.stays()
    }

    fn on_next(&mut self, item: T) {
        let ghost before = self.inner.received();
        self.inner.on_next(item);
        self.history = Ghost(self.history@.push(Event::Next(item)));
        proof { lemma_extend(before, self.inner.received(), self.start@); }
    }

    fn wants_more(&self) -> (r: bool) {
        self.inner.wants_more()
    }

    fn on_completed(&mut self) {
        let ghost before = self.inner.received();
        self.inner.on_completed();
        self.history = Ghost(self.history@.push(Event::Completed));
        proof { lemma_extend(before, self.inner.received(), self.start@); }
    }

    fn on_error(&mut self, error: A) {
        let ghost before = self.inner.received();
        let d = (self.f)(error);
        self.inner.on_error(d);
        self.history = Ghost(self.history@.push(Event::Failed(error)));
        proof { lemma_extend(before, self.inner.received(), self.start@); }
    }
}

/// The part of a history after `start`, once one more event is pushed,
/// is the part before with that event pushed.
proof fn lemma_extend<T, E>(before: Seq<Event<T, E>>, after: Seq<Event<T, E>>, start: Seq<Event<T, E>>)
    requires
        start.len() <= before.len(),
        after == before.push(after.last()),
        after.len() > 0,
    ensures
        after.subrange(start.len() as int, after.len() as int) == before.subrange(
            start.len() as int,
            before.len() as int,
        ).push(after.last()),
        after.subrange(0, start.len() as int) == before.subrange(0, start.len() as int),
{
    assert(after.subrange(start.len() as int, after.len() as int) =~= before.subrange(
        start.len() as int,
        before.len() as int,
    ).push(after.last()));
    assert(after.subrange(0, start.len() as int) =~= before.subrange(0, start.len() as int));
}

/// A source whose values pass through a function.
pub struct MapValues<S, F> {
    source: S,
    f: F,
}

impl<S, F> MapValues<S, F> {
    pub closed spec fn source(&self) -> S {
        self.source
    }

    pub closed spec fn func(&self) -> F {
        self.f
    }

    pub fn new(source: S, f: F) -> (r: Self)
        ensures
            r.source() == source,
            r.func() == f,
    {
        MapValues { source, f }
    }
}

/// Each run of the source, its values passed through the function.
impl<S: Observable, U, F: Fn(S::Item) -> U> Observable for MapValues<S, F> {
    type Item = U;

    type Error = S::Error;

    type Subscription = S::Subscription;

    open spec fn produces(&self, events: Seq<Event<U, S::Error>>) -> bool {
        exists|run: Seq<Event<S::Item, S::Error>>|
            self.source().produces(run) && #[trigger] values_mapped(self.func(), run, events)
    }

    open spec fn may_fail(&self) -> bool {
        self.source().may_fail()
    }

    open spec fn valid(&self) -> bool {
        &&& self.source().valid()
        &&& forall|x: S::Item| call_requires(self.func(), (x,))
    }

    fn subscribe<O: Observer<U, S::Error>>(&mut self, observer: O) -> (r: (S::Subscription, O)) {
        let ghost start = observer.received();
        let ghost given = observer;
        let mapper = ValueMapper {
            inner: observer,
            f: &self.f,
            start: Ghost(start),
            history: Ghost(Seq::empty()),
        };
        assert(start.subrange(0, start.len() as int) =~= start);
        assert(start.subrange(start.len() as int, start.len() as int) =~= Seq::<Event<U, S::Error>>::empty());
        assert(*mapper.f == old(self).func());
        assert(forall|x: S::Item| call_requires(*mapper.f, (x,)));
        assert(mapper.inner.ready());
        assert(mapper.ready());
        let ghost m0 = mapper;
        let (sub, mapper) = self.source.subscribe(mapper);
        assert(mapper.base() == m0.base());
        let ghost run = mapper.history@;
        assert(run.subrange(0, run.len() as int) =~= run);
        let out = mapper.inner;
        proof {
            let tail = out.received().subrange(start.len() as int, out.received().len() as int);
            assert(values_mapped(old(self).func(), run, tail));
            assert(old(self).produces(tail));
            assert(out.base() == given.base());
        }
        (sub, out)
    }
}

/// A source whose failures pass through a function.
pub struct MapError<S, F> {
    source: S,
    f: F,
}

impl<S, F> MapError<S, F> {
    pub closed spec fn source(&self) -> S {
        self.source
    }

    pub closed spec fn func(&self) -> F {
        self.f
    }

    pub fn new(source: S, f: F) -> (r: Self)
        ensures
            r.source() == source,
            r.func() == f,
    {
        MapError { source, f }
    }
}

/// Each run of the source, its failure's error passed through the function.
impl<S: Observable, D, F: Fn(S::Error) -> D> Observable for MapError<S, F> {
    type Item = S::Item;

    type Error = D;

    type Subscription = S::Subscription;

    open spec fn produces(&self, events: Seq<Event<S::Item, D>>) -> bool {
        exists|run: Seq<Event<S::Item, S::Error>>|
            self.source().produces(run) && #[trigger] errors_mapped(self.func(), run, events)
    }

    open spec fn may_fail(&self) -> bool {
        self.source().may_fail()
    }

    open spec fn valid(&self) -> bool {
        &&& self.source().valid()
        &&& forall|e: S::Error| call_requires(self.func(), (e,))
    }

    fn subscribe<O: Observer<S::Item, D>>(&mut self, observer: O) -> (r: (S::Subscription, O)) {
        let ghost start = observer.received();
        let ghost given = observer;
        let mapper = ErrorMapper {
            inner: observer,
            f: &self.f,
            start: Ghost(start),
            history: Ghost(Seq::empty()),
        };
        assert(start.subrange(0, start.len() as int) =~= start);
        assert(start.subrange(start.len() as int, start.len() as int) =~= Seq::<Event<S::Item, D>>::empty());
        assert(*mapper.f == old(self).func());
        assert(forall|e: S::Error| call_requires(*mapper.f, (e,)));
        assert(mapper.inner.ready());
        assert(mapper.ready());
        let ghost m0 = mapper;
        let (sub, mapper) = self.source.subscribe(mapper);
        assert(mapper.base() == m0.base());
        let ghost run = mapper.history@;
        assert(run.subrange(0, run.len() as int) =~= run);
        let out = mapper.inner;
        proof {
            let tail = out.received().subrange(start.len() as int, out.received().len() as int);
            assert(errors_mapped(old(self).func(), run, tail));
            assert(old(self).produces(tail));
            assert(out.base() == given.base());
        }
        (sub, out)
    }
}

} // verus!
