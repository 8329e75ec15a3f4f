use vstd::prelude::*;

use crate::event::{closed, Event};

verus! {

/// The receiving end of a stream. An observer is offered values until one
/// terminal event (completion or failure) reaches it; nothing is offered
/// after that. `received` is the history of what reached it.
pub trait Observer<T, E>: Sized {
    /// The observer can take every call that its history allows.
    spec fn ready(&self) -> bool;

    /// Everything that has been pushed into this observer, in order.
    spec fn received(&self) -> Seq<Event<T, E>>;

    /// What the observer is apart from its history (its handlers, say);
    /// pushing events into it leaves this as it is.
    spec fn base(&self) -> Self;

    /// Whether a failure may be delivered; an observer without an error
    /// handler treats failure as a fault, so callers must rule it out.
    spec fn handles_errors(&self) -> bool;

    /// The observer never ends its own subscription.
    spec fn steady(&self) -> bool;

    /// The observer's present answer to `wants_more`.
    spec fn stays(&self) -> bool;

    fn on_next(&mut self, item: T)
        requires
            old(self).ready(),
            !closed(old(self).received()),
        ensures
            final(self).ready(),
            final(self).base() == old(self).base(),
            final(self).handles_errors() == old(self).handles_errors(),
            final(self).steady() == old(self).steady(),
            final(self).received() == old(self).received().push(Event::Next(item)),
    ;

    /// Whether the observer stays subscribed. One that ended its own
    /// subscription while handling a value answers `false`; a subject then
    /// drops it before its next value. A finite source, which finishes
    /// before `subscribe` returns, has nothing to cancel and replays to the
    /// end.
    fn wants_more(&self) -> (r: bool)
        requires
            self.ready(),
        ensures
            r == self.stays(),
            self.steady() ==> r,
    ;

    fn on_completed(&mut self)
        requires
            old(self).ready(),
            !closed(old(self).received()),
        ensures
            final(self).ready(),
            final(self).base() == old(self).base(),
            final(self).handles_errors() == old(self).handles_errors(),
            final(self).steady() == old(self).steady(),
            final(self).received() == old(self).received().push(Event::Completed),
    ;

    fn on_error(&mut self, error: E)
        requires
            old(self).ready(),
            old(self).handles_errors(),
            !closed(old(self).received()),
        ensures
            final(self).ready(),
            final(self).base() == old(self).base(),
            final(self).handles_errors() == old(self).handles_errors(),
            final(self).steady() == old(self).steady(),
            final(self).received() == old(self).received().push(Event::Failed(error)),
    ;
}

/// Handles values only; completion is ignored and failure is a fault.
pub struct NextObserver<T, E, F> {
    fn_next: F,
    history: Ghost<Seq<Event<T, E>>>,
}

impl<T, E, F: FnMut(T)> NextObserver<T, E, F> {
    /// The closure that handles values.
    pub closed spec fn handler(&self) -> F {
        self.fn_next
    }

    /// Each value received went through the handler.
    pub open spec fn handled(&self) -> bool {
        forall|i: int|
            0 <= i < self.received().len() ==> (#[trigger] self.received()[i] is Next
                ==> call_ensures(self.handler(), (self.received()[i]->Next_0,), ()))
    }

    pub fn new(fn_next: F) -> (r: Self)
        requires
            forall|x: T| call_requires(fn_next, (x,)),
        ensures
            r.ready(),
            r.received() == Seq::<Event<T, E>>::empty(),
            r.handler() == fn_next,
            !r.handles_errors(),
    {
        NextObserver { fn_next, history: Ghost(Seq::empty()) }
    }

    pub proof fn lemma_handled(&self, other: &Self)
        requires
            self.ready(),
            self.base() == other.base(),
        ensures
            self.handled(),
            self.handler() == other.handler(),
    {
    }
}

impl<T, E, F: FnMut(T)> Observer<T, E> for NextObserver<T, E, F> {
    closed spec fn ready(&self) -> bool {
        &&& forall|x: T| call_requires(self.fn_next, (x,))
        &&& forall|i: int|
            0 <= i < self.history@.len() ==> (#[trigger] self.history@[i] is Next
                ==> call_ensures(self.fn_next, (self.history@[i]->Next_0,), ()))
    }

    closed spec fn received(&self) -> Seq<Event<T, E>> {
        self.history@
    }

    closed spec fn base(&self) -> Self {
        NextObserver { fn_next: self.fn_next, history: Ghost(Seq::empty()) }
    }

    open spec fn handles_errors(&self) -> bool {
        false
    }

    open spec fn steady(&self) -> bool {
        true
    }

    open spec fn stays(&self) -> bool {
        true
    }

    fn wants_more(&self) -> (r: bool) {
        true
    }

    fn on_next(&mut self, item: T) {
        let ghost h = self.history@.push(Event::Next(item));
        (self.fn_next)(item);
        self.history = Ghost(h);
    }

    fn on_completed(&mut self) {
        self.history = Ghost(self.history@.push(Event::Completed));
    }

    fn on_error(&mut self, error: E) {
        unreached()
    }
}

/// Handles values and completion; failure is a fault.
pub struct CompletedObserver<T, E, F, G> {
    fn_next: F,
    fn_completed: Option<G>,
    completed_handler: Ghost<G>,
    history: Ghost<Seq<Event<T, E>>>,
}

impl<T, E, F: FnMut(T), G: FnOnce()> CompletedObserver<T, E, F, G> {
    /// The closure that handles values.
    pub closed spec fn handler(&self) -> F {
        self.fn_next
    }

    /// The closure that handles completion.
    pub closed spec fn completion_handler(&self) -> G {
        self.completed_handler@
    }

    /// Each value received went through the value handler, and a
    /// completion through the completion handler.
    pub open spec fn handled(&self) -> bool {
        forall|i: int|
            0 <= i < self.received().len() ==> match #[trigger] self.received()[i] {
                Event::Next(x) => call_ensures(self.handler(), (x,), ()),
                Event::Completed => call_ensures(self.completion_handler(), (), ()),
                Event::Failed(_) => false,
            }
    }

    pub fn new(fn_next: F, fn_completed: G) -> (r: Self)
        requires
            forall|x: T| call_requires(fn_next, (x,)),
            call_requires(fn_completed, ()),
        ensures
            r.ready(),
            r.received() == Seq::<Event<T, E>>::empty(),
            r.handler() == fn_next,
            r.completion_handler() == fn_completed,
            !r.handles_errors(),
    {
        CompletedObserver {
            fn_next,
            fn_completed: Some(fn_completed),
            completed_handler: Ghost(fn_completed),
            history: Ghost(Seq::empty()),
        }
    }

    pub proof fn lemma_handled(&self, other: &Self)
        requires
            self.ready(),
            self.base() == other.base(),
        ensures
            self.handled(),
            self.handler() == other.handler(),
            self.completion_handler() == other.completion_handler(),
    {
    }
}

impl<T, E, F: FnMut(T), G: FnOnce()> Observer<T, E> for CompletedObserver<T, E, F, G> {
    closed spec fn ready(&self) -> bool {
        &&& forall|x: T| call_requires(self.fn_next, (x,))
        &&& !closed(self.history@) ==> self.fn_completed == Some(self.completed_handler@)
            && call_requires(self.completed_handler@, ())
        &&& forall|i: int|
            0 <= i < self.history@.len() ==> match #[trigger] self.history@[i] {
                Event::Next(x) => call_ensures(self.fn_next, (x,), ()),
                Event::Completed => call_ensures(self.completed_handler@, (), ()),
                Event::Failed(_) => false,
            }
    }

    closed spec fn received(&self) -> Seq<Event<T, E>> {
        self.history@
    }

    closed spec fn base(&self) -> Self {
        CompletedObserver {
            fn_next: self.fn_next,
            fn_completed: None,
            completed_handler: self.completed_handler,
            history: Ghost(Seq::empty()),
        }
    }

    open spec fn handles_errors(&self) -> bool {
        false
    }

    open spec fn steady(&self) -> bool {
        true
    }

    open spec fn stays(&self) -> bool {
        true
    }

    fn wants_more(&self) -> (r: bool) {
        true
    }

    fn on_next(&mut self, item: T) {
        let ghost h = self.history@.push(Event::Next(item));
        (self.fn_next)(item);
        self.history = Ghost(h);
    }

    fn on_completed(&mut self) {
        if let Some(g) = self.fn_completed.take() {
            g();
        }
        self.history = Ghost(self.history@.push(Event::Completed));
    }

    fn on_error(&mut self, error: E) {
        unreached()
    }
}

/// Handles values, completion and failure, each by its own closure.
pub struct ErrorObserver<T, E, F, G, H> {
    fn_next: F,
    fn_completed: Option<G>,
    fn_error: Option<H>,
    completed_handler: Ghost<G>,
    error_handler: Ghost<H>,
    history: Ghost<Seq<Event<T, E>>>,
}

impl<T, E, F: FnMut(T), G: FnOnce(), H: FnOnce(E)> ErrorObserver<T, E, F, G, H> {
    /// The closure that handles values.
    pub closed spec fn handler(&self) -> F {
        self.fn_next
    }

    /// The closure that handles completion.
    pub closed spec fn completion_handler(&self) -> G {
        self.completed_handler@
    }

    /// The closure that handles failure.
    pub closed spec fn failure_handler(&self) -> H {
        self.error_handler@
    }

    /// Each event received went through its handler.
    pub open spec fn handled(&self) -> bool {
        forall|i: int|
            0 <= i < self.received().len() ==> match #[trigger] self.received()[i] {
                Event::Next(x) => call_ensures(self.handler(), (x,), ()),
                Event::Completed => call_ensures(self.completion_handler(), (), ()),
                Event::Failed(e) => call_ensures(self.failure_handler(), (e,), ()),
            }
    }

    pub fn new(fn_next: F, fn_completed: G, fn_error: H) -> (r: Self)
        requires
            forall|x: T| call_requires(fn_next, (x,)),
            call_requires(fn_completed, ()),
            forall|e: E| call_requires(fn_error, (e,)),
        ensures
            r.ready(),
            r.received() == Seq::<Event<T, E>>::empty(),
            r.handler() == fn_next,
            r.completion_handler() == fn_completed,
            r.failure_handler() == fn_error,
            r.handles_errors(),
    {
        ErrorObserver {
            fn_next,
            fn_completed: Some(fn_completed),
            fn_error: Some(fn_error),
            completed_handler: Ghost(fn_completed),
            error_handler: Ghost(fn_error),
            history: Ghost(Seq::empty()),
        }
    }

    pub proof fn lemma_handled(&self, other: &Self)
        requires
            self.ready(),
            self.base() == other.base(),
        ensures
            self.handled(),
            self.handler() == other.handler(),
            self.completion_handler() == other.completion_handler(),
            self.failure_handler() == other.failure_handler(),
    {
    }
}

impl<T, E, F: FnMut(T), G: FnOnce(), H: FnOnce(E)> Observer<T, E> for ErrorObserver<
    T,
    E,
    F,
    G,
    H,
> {
    closed spec fn ready(&self) -> bool {
        &&& forall|x: T| call_requires(self.fn_next, (x,))
        &&& !closed(self.history@) ==> self.fn_completed == Some(self.completed_handler@)
            && call_requires(self.completed_handler@, ())
        &&& !closed(self.history@) ==> self.fn_error == Some(self.error_handler@) && forall|e: E|
            call_requires(self.error_handler@, (e,))
        &&& forall|i: int|
            0 <= i < self.history@.len() ==> match #[trigger] self.history@[i] {
                Event::Next(x) => call_ensures(self.fn_next, (x,), ()),
                Event::Completed => call_ensures(self.completed_handler@, (), ()),
                Event::Failed(e) => call_ensures(self.error_handler@, (e,), ()),
            }
    }

    closed spec fn received(&self) -> Seq<Event<T, E>> {
        self.history@
    }

    closed spec fn base(&self) -> Self {
        ErrorObserver {
            fn_next: self.fn_next,
            fn_completed: None,
            fn_error: None,
            completed_handler: self.completed_handler,
            error_handler: self.error_handler,
            history: Ghost(Seq::empty()),
        }
    }

    open spec fn handles_errors(&self) -> bool {
        true
    }

    open spec fn steady(&self) -> bool {
        true
    }

    open spec fn stays(&self) -> bool {
        true
    }

    fn wants_more(&self) -> (r: bool) {
        true
    }

    fn on_next(&mut self, item: T) {
        let ghost h = self.history@.push(Event::Next(item));
        (self.fn_next)(item);
        self.history = Ghost(h);
    }

    fn on_completed(&mut self) {
        if let Some(g) = self.fn_completed.take() {
            g();
        }
        self.fn_error = None;
        self.history = Ghost(self.history@.push(Event::Completed));
    }

    fn on_error(&mut self, error: E) {
        let ghost h = self.history@.push(Event::Failed(error));
        if let Some(h) = self.fn_error.take() {
            h(error);
        }
        self.fn_completed = None;
        self.history = Ghost(h);
    }
}

/// Sees each value as `Some(value)` and completion as `None`; failure is a
/// fault.
pub struct OptionObserver<T, E, F> {
    fn_option: F,
    history: Ghost<Seq<Event<T, E>>>,
}

impl<T, E, F: FnMut(Option<T>)> OptionObserver<T, E, F> {
    /// The closure that sees each value and the completion.
    pub closed spec fn handler(&self) -> F {
        self.fn_option
    }

    /// Each value went through the handler as `Some`, completion as `None`.
    pub open spec fn handled(&self) -> bool {
        forall|i: int|
            0 <= i < self.received().len() ==> match #[trigger] self.received()[i] {
                Event::Next(x) => call_ensures(self.handler(), (Some(x),), ()),
                Event::Completed => call_ensures(self.handler(), (None,), ()),
                Event::Failed(_) => false,
            }
    }

    pub fn new(fn_option: F) -> (r: Self)
        requires
            forall|x: Option<T>| call_requires(fn_option, (x,)),
        ensures
            r.ready(),
            r.received() == Seq::<Event<T, E>>::empty(),
            r.handler() == fn_option,
            !r.handles_errors(),
    {
        OptionObserver { fn_option, history: Ghost(Seq::empty()) }
    }

    pub proof fn lemma_handled(&self, other: &Self)
        requires
            self.ready(),
            self.base() == other.base(),
        ensures
            self.handled(),
            self.handler() == other.handler(),
    {
    }
}

impl<T, E, F: FnMut(Option<T>)> Observer<T, E> for OptionObserver<T, E, F> {
    closed spec fn ready(&self) -> bool {
        &&& forall|x: Option<T>| call_requires(self.fn_option, (x,))
        &&& forall|i: int|
            0 <= i < self.history@.len() ==> match #[trigger] self.history@[i] {
                Event::Next(x) => call_ensures(self.fn_option, (Some(x),), ()),
                Event::Completed => call_ensures(self.fn_option, (None,), ()),
                Event::Failed(_) => false,
            }
    }

    closed spec fn received(&self) -> Seq<Event<T, E>> {
        self.history@
    }

    closed spec fn base(&self) -> Self {
        OptionObserver { fn_option: self.fn_option, history: Ghost(Seq::empty()) }
    }

    open spec fn handles_errors(&self) -> bool {
        false
    }

    open spec fn steady(&self) -> bool {
        true
    }

    open spec fn stays(&self) -> bool {
        true
    }

    fn wants_more(&self) -> (r: bool) {
        true
    }

    fn on_next(&mut self, item: T) {
        let ghost h = self.history@.push(Event::Next(item));
        (self.fn_option)(Some(item));
        self.history = Ghost(h);
    }

    fn on_completed(&mut self) {
        (self.fn_option)(None);
        self.history = Ghost(self.history@.push(Event::Completed));
    }

    fn on_error(&mut self, error: E) {
        unreached()
    }
}

/// Sees each value as `Ok(Some(value))`, completion as `Ok(None)` and
/// failure as `Err(error)`; it can take every outcome.
pub struct ResultObserver<T, E, F> {
    fn_result: F,
    history: Ghost<Seq<Event<T, E>>>,
}

impl<T, E, F: FnMut(Result<Option<T>, E>)> ResultObserver<T, E, F> {
    /// The closure that sees every event.
    pub closed spec fn handler(&self) -> F {
        self.fn_result
    }

    /// Each event went through the handler in its encoding.
    pub open spec fn handled(&self) -> bool {
        forall|i: int|
            0 <= i < self.received().len() ==> match #[trigger] self.received()[i] {
                Event::Next(x) => call_ensures(self.handler(), (Ok(Some(x)),), ()),
                Event::Completed => call_ensures(self.handler(), (Ok(None),), ()),
                Event::Failed(e) => call_ensures(self.handler(), (Err(e),), ()),
            }
    }

    pub fn new(fn_result: F) -> (r: Self)
        requires
            forall|x: Result<Option<T>, E>| call_requires(fn_result, (x,)),
        ensures
            r.ready(),
            r.received() == Seq::<Event<T, E>>::empty(),
            r.handler() == fn_result,
            r.handles_errors(),
    {
        ResultObserver { fn_result, history: Ghost(Seq::empty()) }
    }

    pub proof fn lemma_handled(&self, other: &Self)
        requires
            self.ready(),
            self.base() == other.base(),
        ensures
            self.handled(),
            self.handler() == other.handler(),
    {
    }
}

impl<T, E, F: FnMut(Result<Option<T>, E>)> Observer<T, E> for ResultObserver<T, E, F> {
    closed spec fn ready(&self) -> bool {
        &&& forall|x: Result<Option<T>, E>| call_requires(self.fn_result, (x,))
        &&& forall|i: int|
            0 <= i < self.history@.len() ==> match #[trigger] self.history@[i] {
                Event::Next(x) => call_ensures(self.fn_result, (Ok(Some(x)),), ()),
                Event::Completed => call_ensures(self.fn_result, (Ok(None),), ()),
                Event::Failed(e) => call_ensures(self.fn_result, (Err(e),), ()),
            }
    }

    closed spec fn received(&self) -> Seq<Event<T, E>> {
        self.history@
    }

    closed spec fn base(&self) -> Self {
        ResultObserver { fn_result: self.fn_result, history: Ghost(Seq::empty()) }
    }

    open spec fn handles_errors(&self) -> bool {
        true
    }

    open spec fn steady(&self) -> bool {
        true
    }

    open spec fn stays(&self) -> bool {
        true
    }

    fn wants_more(&self) -> (r: bool) {
        true
    }

    fn on_next(&mut self, item: T) {
        let ghost h = self.history@.push(Event::Next(item));
        (self.fn_result)(Ok(Some(item)));
        self.history = Ghost(h);
    }

    fn on_completed(&mut self) {
        (self.fn_result)(Ok(None));
        self.history = Ghost(self.history@.push(Event::Completed));
    }

    fn on_error(&mut self, error: E) {
        let ghost h = self.history@.push(Event::Failed(error));
        (self.fn_result)(Err(error));
        self.history = Ghost(h);
    }
}

/// Handles values with a closure that answers whether to stay subscribed;
/// answering `false` ends the subscription from inside the handler.
/// Completion is ignored and failure is a fault.
pub struct UntilObserver<T, E, F> {
    fn_next: F,
    more: bool,
    history: Ghost<Seq<Event<T, E>>>,
}

/// `more` is what `f` answered for the last value of `history` (ignoring a
/// completion after it), or `true` before any value.
pub open spec fn answered<T, E, F: FnMut(T) -> bool>(
    f: F,
    history: Seq<Event<T, E>>,
    more: bool,
) -> bool
    decreases history.len(),
{
    if history.len() == 0 {
        more
    } else if history.last() is Next {
        call_ensures(f, (history.last()->Next_0,), more)
    } else {
        answered(f, history.drop_last(), more)
    }
}

impl<T, E, F: FnMut(T) -> bool> UntilObserver<T, E, F> {
    /// Its answer to `wants_more` is what the handler returned for the last
    /// value, or `true` before any value.
    pub proof fn lemma_answer(&self)
        requires
            self.ready(),
        ensures
            answered(self.handler(), self.received(), self.stays()),
    {
    }

    /// The closure that handles values.
    pub closed spec fn handler(&self) -> F {
        self.fn_next
    }

    /// Each value received went through the handler.
    pub open spec fn handled(&self) -> bool {
        forall|i: int|
            0 <= i < self.received().len() ==> (#[trigger] self.received()[i] is Next
                ==> (call_ensures(self.handler(), (self.received()[i]->Next_0,), true)
                || call_ensures(self.handler(), (self.received()[i]->Next_0,), false)))
    }

    pub fn new(fn_next: F) -> (r: Self)
        requires
            forall|x: T| call_requires(fn_next, (x,)),
        ensures
            r.ready(),
            r.received() == Seq::<Event<T, E>>::empty(),
            r.handler() == fn_next,
            !r.handles_errors(),
    {
        UntilObserver { fn_next, more: true, history: Ghost(Seq::empty()) }
    }

    pub proof fn lemma_handled(&self, other: &Self)
        requires
            self.ready(),
            self.base() == other.base(),
        ensures
            self.handled(),
            self.handler() == other.handler(),
    {
    }
}

impl<T, E, F: FnMut(T) -> bool> Observer<T, E> for UntilObserver<T, E, F> {
    closed spec fn ready(&self) -> bool {
        &&& forall|x: T| call_requires(self.fn_next, (x,))
        &&& answered(self.fn_next, self.history@, self.more)
        &&& forall|i: int|
            0 <= i < self.history@.len() ==> (#[trigger] self.history@[i] is Next
                ==> (call_ensures(self.fn_next, (self.history@[i]->Next_0,), true)
                || call_ensures(self.fn_next, (self.history@[i]->Next_0,), false)))
    }

    closed spec fn received(&self) -> Seq<Event<T, E>> {
        self.history@
    }

    closed spec fn base(&self) -> Self {
        UntilObserver { fn_next: self.fn_next, more: true, history: Ghost(Seq::empty()) }
    }

    open spec fn handles_errors(&self) -> bool {
        false
    }

    open spec fn steady(&self) -> bool {
        false
    }

    closed spec fn stays(&self) -> bool {
        self.more
    }

    fn on_next(&mut self, item: T) {
        let ghost old_h = self.history@;
        let ghost h = self.history@.push(Event::Next(item));
        let keep = (self.fn_next)(item);
        self.more = keep;
        self.history = Ghost(h);
        assert(h.last() == Event::<T, E>::Next(item));
        assert forall|i: int|
            0 <= i < h.len() && (#[trigger] h[i] is Next) implies (call_ensures(self.fn_next, (h[i]->Next_0,), true)
            || call_ensures(self.fn_next, (h[i]->Next_0,), false)) by {
            if i < old_h.len() {
                assert(h[i] == old_h[i]);
            } else {
                assert(call_ensures(self.fn_next, (h[i]->Next_0,), keep));
            }
        }
    }

    fn wants_more(&self) -> (r: bool) {
        self.more
    }

    fn on_completed(&mut self) {
        let ghost old_h = self.history@;
        let ghost h = self.history@.push(Event::Completed);
        self.history = Ghost(h);
        assert(h.drop_last() =~= old_h);
        assert forall|i: int|
            0 <= i < h.len() && (#[trigger] h[i] is Next) implies (call_ensures(self.fn_next, (h[i]->Next_0,), true)
            || call_ensures(self.fn_next, (h[i]->Next_0,), false)) by {
            assert(h[i] == old_h[i]);
        }
    }

    fn on_error(&mut self, error: E) {
        unreached()
    }
}

} // verus!
