use vstd::prelude::*;

use crate::event::{closed, Event};
use crate::observer::Observer;

verus! {

/// What a subject looks like from outside: whether it has terminated, and
/// for each subscription ever made (by its number) whether it is still live,
/// whether its observer is steady (never ends its own subscription), its
/// observer's last answer to `wants_more`, and the history of its observer,
/// which the subject extends; and `trace`, every delivery the subject has
/// made, in the order made, as (subscription number, event).
pub struct SubjectView<T, E> {
    pub terminated: bool,
    pub live: Seq<bool>,
    pub steady: Seq<bool>,
    pub answers: Seq<bool>,
    pub logs: Seq<Seq<Event<T, E>>>,
    pub trace: Seq<(int, Event<T, E>)>,
}

/// One delivery to each subscription below `n` that is `live`, in order of
/// subscription number, each with the last event of its log in `logs`.
pub open spec fn round<T, E>(live: Seq<bool>, logs: Seq<Seq<Event<T, E>>>, n: int) -> Seq<
    (int, Event<T, E>),
>
    decreases n,
{
    if n <= 0 {
        Seq::empty()
    } else if live[n - 1] {
        round(live, logs, n - 1).push((n - 1, logs[n - 1].last()))
    } else {
        round(live, logs, n - 1)
    }
}

proof fn lemma_round_same<T, E>(
    live: Seq<bool>,
    a: Seq<Seq<Event<T, E>>>,
    b: Seq<Seq<Event<T, E>>>,
    n: int,
)
    requires
        forall|j: int| 0 <= j < n ==> a[j] == b[j],
    ensures
        round(live, a, n) == round(live, b, n),
    decreases n,
{
    if n > 0 {
        lemma_round_same(live, a, b, n - 1);
    }
}

/// `after` is `before` with one more event, a copy of `item`.
pub open spec fn delivered<T: Clone, E>(
    before: Seq<Event<T, E>>,
    item: T,
    after: Seq<Event<T, E>>,
) -> bool {
    &&& after.len() == before.len() + 1
    &&& after.drop_last() == before
    &&& after.last() is Next
    &&& cloned(item, after.last()->Next_0)
}

/// `after` is `before` with one more event, a failure with a copy of
/// `error`.
pub open spec fn delivered_failure<T, E: Clone>(
    before: Seq<Event<T, E>>,
    error: E,
    after: Seq<Event<T, E>>,
) -> bool {
    &&& after.len() == before.len() + 1
    &&& after.drop_last() == before
    &&& after.last() is Failed
    &&& cloned(error, after.last()->Failed_0)
}

impl<T, E> SubjectView<T, E> {
    /// A subject with no subscriptions that has not terminated.
    pub open spec fn fresh() -> Self {
        SubjectView {
            terminated: false,
            live: Seq::empty(),
            steady: Seq::empty(),
            answers: Seq::empty(),
            logs: Seq::empty(),
            trace: Seq::empty(),
        }
    }

    /// A new subscription whose observer has received `history` so far; it
    /// is live only while the subject has not terminated.
    pub open spec fn subscribed(self, history: Seq<Event<T, E>>, steady: bool, stays: bool) -> Self {
        SubjectView {
            terminated: self.terminated,
            live: self.live.push(!self.terminated),
            steady: self.steady.push(steady),
            answers: self.answers.push(stays),
            logs: self.logs.push(history),
            trace: self.trace,
        }
    }

    /// Subscription `id` is no longer live; nothing else changes.
    pub open spec fn unsubscribed(self, id: int) -> Self {
        if 0 <= id < self.live.len() {
            SubjectView { live: self.live.update(id, false), ..self }
        } else {
            self
        }
    }

    /// Completion reaches every live subscription once; then none is live.
    pub open spec fn completed(self) -> Self {
        if self.terminated {
            self
        } else {
            let logs = Seq::new(
                self.logs.len(),
                |i: int|
                    if self.live[i] {
                        self.logs[i].push(Event::Completed)
                    } else {
                        self.logs[i]
                    },
            );
            SubjectView {
                terminated: true,
                live: Seq::new(self.live.len(), |i: int| false),
                steady: self.steady,
                answers: self.answers,
                logs: logs,
                trace: self.trace + round(self.live, logs, self.live.len() as int),
            }
        }
    }
}

impl<T: Clone, E> SubjectView<T, E> {
    /// `after` is `self` once `item` has been pushed: each live subscription
    /// has a copy of it, the others are unchanged. An observer may end its
    /// own subscription while it handles the value, so a live one may stop
    /// being live: a live one stays live exactly when its observer answers
    /// `wants_more` with `true` after the value (a steady one always does);
    /// none starts.
    pub open spec fn pushed(self, item: T, after: Self) -> bool {
        if self.terminated {
            after == self
        } else {
            &&& after.terminated == self.terminated
            &&& after.steady == self.steady
            &&& after.live.len() == self.live.len()
            &&& after.answers.len() == self.answers.len()
            &&& after.trace == self.trace + round(self.live, after.logs, self.live.len() as int)
            &&& forall|i: int|
                0 <= i < self.live.len() ==> #[trigger] after.live[i] == (self.live[i]
                    && after.answers[i])
            &&& forall|i: int|
                0 <= i < self.live.len() && !self.live[i] ==> #[trigger] after.answers[i]
                    == self.answers[i]
            &&& forall|i: int|
                0 <= i < self.live.len() && self.steady.len() == self.live.len() && self.live[i]
                    && self.steady[i] ==> #[trigger] after.answers[i]
            &&& after.logs.len() == self.logs.len()
            &&& forall|i: int|
                0 <= i < self.logs.len() ==> if self.live[i] {
                    delivered(self.logs[i], item, #[trigger] after.logs[i])
                } else {
                    after.logs[i] == self.logs[i]
                }
        }
    }
}

impl<T, E: Clone> SubjectView<T, E> {
    /// `after` is `self` once it has failed with `error`: each live
    /// subscription has a copy of it; then none is live.
    pub open spec fn failed(self, error: E, after: Self) -> bool {
        if self.terminated {
            after == self
        } else {
            &&& after.terminated
            &&& after.steady == self.steady
            &&& after.answers == self.answers
            &&& after.trace == self.trace + round(self.live, after.logs, self.live.len() as int)
            &&& after.live == Seq::new(self.live.len(), |i: int| false)
            &&& after.logs.len() == self.logs.len()
            &&& forall|i: int|
                0 <= i < self.logs.len() ==> if self.live[i] {
                    delivered_failure(self.logs[i], error, #[trigger] after.logs[i])
                } else {
                    after.logs[i] == self.logs[i]
                }
        }
    }
}

/// The handle of one subscription to a subject, by its number. The
/// subscription ends through `Subject::unsubscribe`; dropping the handle
/// does not end it, and neither does dropping the subject (the handle then
/// names a slot that no longer exists, and is inert).
pub struct SubjectSubscription {
    slot: usize,
}

impl SubjectSubscription {
    pub closed spec fn id(&self) -> int {
        self.slot as int
    }
}

/// A multicast hub: each value pushed into it reaches, as its own copy,
/// every observer subscribed at that moment, in order of subscription.
/// Slots are never moved, so a subscription keeps its number; removing one
/// leaves an empty slot.
pub struct Subject<T, E, O> {
    slots: Vec<Option<O>>,
    terminated: bool,
    steady: Ghost<Seq<bool>>,
    answers: Ghost<Seq<bool>>,
    logs: Ghost<Seq<Seq<Event<T, E>>>>,
    trace: Ghost<Seq<(int, Event<T, E>)>>,
}

impl<T, E, O: Observer<T, E>> View for Subject<T, E, O> {
    type V = SubjectView<T, E>;

    closed spec fn view(&self) -> SubjectView<T, E> {
        SubjectView {
            terminated: self.terminated,
            live: Seq::new(self.slots@.len(), |i: int| self.slots@[i] is Some),
            steady: self.steady@,
            answers: self.answers@,
            logs: self.logs@,
            trace: self.trace@,
        }
    }
}

impl<T, E, O: Observer<T, E>> Subject<T, E, O> {
    /// Each occupied slot holds an observer ready for more, whose history
    /// is the slot's log; a terminated subject holds none.
    pub closed spec fn wf(&self) -> bool {
        &&& self.slots@.len() == self.logs@.len()
        &&& self.steady@.len() == self.logs@.len()
        &&& self.answers@.len() == self.logs@.len()
        &&& forall|i: int|
            0 <= i < self.slots@.len() && (#[trigger] self.slots@[i]) is Some ==> {
                &&& self.slots@[i]->0.ready()
                &&& self.slots@[i]->0.steady() == self.steady@[i]
                &&& self.slots@[i]->0.stays() == self.answers@[i]
                &&& self.slots@[i]->0.received() == self.logs@[i]
                &&& !closed(self.logs@[i])
            }
        &&& self.terminated ==> forall|i: int|
            0 <= i < self.slots@.len() ==> (#[trigger] self.slots@[i]) is None
    }

    /// Every live observer takes failures.
    pub closed spec fn failure_safe(&self) -> bool {
        forall|i: int|
            0 <= i < self.slots@.len() && (#[trigger] self.slots@[i]) is Some
                ==> self.slots@[i]->0.handles_errors()
    }

    pub fn new() -> (r: Self)
        ensures
            r.wf(),
            r@ == SubjectView::<T, E>::fresh(),
            r.failure_safe(),
    {
        let r = Subject {
            slots: Vec::new(),
            terminated: false,
            steady: Ghost(Seq::empty()),
            answers: Ghost(Seq::empty()),
            logs: Ghost(Seq::empty()),
            trace: Ghost(Seq::empty()),
        };
        assert(r@.live =~= Seq::<bool>::empty());
        r
    }

    /// Registers `observer` in a new slot. After termination the slot stays
    /// empty: a late subscriber hears nothing, not even a replay of the end.
    pub fn subscribe(&mut self, observer: O) -> (r: SubjectSubscription)
        requires
            old(self).wf(),
            observer.ready(),
            !closed(observer.received()),
        ensures
            final(self).wf(),
            final(self)@ == old(self)@.subscribed(observer.received(), observer.steady(), observer.stays()),
            r.id() == old(self)@.logs.len(),
            old(self).failure_safe() && (old(self)@.terminated || observer.handles_errors())
                ==> final(self).failure_safe(),
    {
        let slot: usize = self.slots.len();
        let ghost history = observer.received();
        let ghost obs = observer;
        if self.terminated {
            self.slots.push(None);
        } else {
            self.slots.push(Some(observer));
        }
        self.logs = Ghost(self.logs@.push(history));
        self.steady = Ghost(self.steady@.push(obs.steady()));
        self.answers = Ghost(self.answers@.push(obs.stays()));
        assert(self@.live =~= old(self)@.live.push(!self.terminated));
        assert(forall|i: int|
            0 <= i < old(self).slots@.len() ==> self.slots@[i] == old(self).slots@[i]);
        assert(!self.terminated ==> self.slots@[slot as int] == Some(obs));
        SubjectSubscription { slot }
    }

    /// Ends the subscription: its slot is emptied, once; doing it again, or
    /// for a handle of another subject, changes nothing.
    pub fn unsubscribe(&mut self, subscription: &SubjectSubscription)
        requires
            old(self).wf(),
        ensures
            final(self).wf(),
            final(self)@ == old(self)@.unsubscribed(subscription.id()),
            old(self).failure_safe() ==> final(self).failure_safe(),
    {
        if subscription.slot < self.slots.len() {
            self.slots.set(subscription.slot, None);
            assert(self@.live =~= old(self)@.live.update(subscription.id(), false));
        }
    }

    /// Pushes a copy of `item` to each live observer, in order of
    /// subscription; nothing once the subject has terminated. An observer
    /// that ends its own subscription while it handles the value (its
    /// `wants_more` answers `false`) is released at once and hears nothing
    /// more; the slots after it are still visited, each exactly once.
    pub fn on_next(&mut self, item: T)
        where
            T: Clone,
        requires
            old(self).wf(),
        ensures
            final(self).wf(),
            old(self)@.pushed(item, final(self)@),
            old(self).failure_safe() ==> final(self).failure_safe(),
    {
        if self.terminated {
            return;
        }
        let n: usize = self.slots.len();
        let mut i: usize = 0;
        while i < n
            invariant
                n == self.slots@.len(),
                0 <= i <= n,
                !self.terminated,
                self.wf(),
                self@.live.len() == n,
                old(self)@.live.len() == n,
                self.answers@.len() == n,
                forall|j: int|
                    0 <= j < i ==> #[trigger] self@.live[j] == (old(self)@.live[j]
                        && self.answers@[j]),
                forall|j: int|
                    0 <= j < i && !old(self)@.live[j] ==> #[trigger] self.answers@[j]
                        == old(self).answers@[j],
                forall|j: int|
                    0 <= j < i && old(self)@.live[j] && old(self)@.steady[j]
                        ==> #[trigger] self.answers@[j],
                forall|j: int| i <= j < n ==> #[trigger] self.answers@[j] == old(self).answers@[j],
                self.steady@ == old(self).steady@,
                forall|j: int| i <= j < n ==> #[trigger] self.slots@[j] == old(self).slots@[j],
                old(self).failure_safe() ==> self.failure_safe(),
                self.logs@.len() == n,
                self.trace@ == old(self).trace@ + round(old(self)@.live, self.logs@, i as int),
                forall|j: int|
                    0 <= j < i ==> if old(self)@.live[j] {
                        delivered(old(self)@.logs[j], item, #[trigger] self.logs@[j])
                    } else {
                        self.logs@[j] == old(self)@.logs[j]
                    },
                forall|j: int| i <= j < n ==> #[trigger] self.logs@[j] == old(self)@.logs[j],
            decreases n - i,
        {
            assert((self.slots@[i as int] is Some) == old(self)@.live[i as int]);
            let ghost prev = self.slots@;
            let ghost prev_live = self@.live;
            let ghost prev_answers = self.answers@;
            let ghost prev_logs = self.logs@;
            let mut slot: Option<O> = None;
            core::mem::swap(&mut slot, &mut self.slots[i]);
            assert(slot == prev[i as int]);
            if let Some(mut o) = slot {
                let copy = item.clone();
                let ghost before = o.received();
                o.on_next(copy);
                self.logs = Ghost(self.logs@.update(i as int, o.received()));
                self.trace = Ghost(self.trace@.push((i as int, o.received().last())));
                assert(o.received().drop_last() =~= before);
                let keep = o.wants_more();
                self.answers = Ghost(self.answers@.update(i as int, keep));
                if keep {
                    self.slots.set(i, Some(o));
                }
            }
            assert forall|j: int| 0 <= j < i + 1 implies #[trigger] self@.live[j] == (old(self)@.live[j]
                && self.answers@[j]) by {
                if j < i {
                    assert(self.slots@[j] == prev[j]);
                    assert(prev_live[j] == (prev[j] is Some));
                    assert(self.answers@[j] == prev_answers[j]);
                } else {
                    assert(prev[j] == old(self).slots@[j]);
                }
            }
            proof {
                lemma_round_same(old(self)@.live, self.logs@, prev_logs, i as int);
            }
            i = i + 1;
        }
    }

    /// Delivers completion once to each live observer, then terminates and
    /// releases them all; nothing if it has already terminated.
    pub fn on_completed(&mut self)
        requires
            old(self).wf(),
        ensures
            final(self).wf(),
            final(self)@ == old(self)@.completed(),
            final(self).failure_safe(),
    {
        if self.terminated {
            assert forall|i: int|
                0 <= i < self.slots@.len() && (#[trigger] self.slots@[i]) is Some
                    implies self.slots@[i]->0.handles_errors() by {}
            return;
        }
        self.terminated = true;
        let n: usize = self.slots.len();
        let mut i: usize = 0;
        while i < n
            invariant
                n == self.slots@.len(),
                n == old(self).slots@.len(),
                0 <= i <= n,
                self.terminated,
                self.slots@.len() == self.logs@.len(),
                self.trace@ == old(self).trace@ + round(old(self)@.live, self.logs@, i as int),
                self.steady@ == old(self).steady@,
                self.answers@ == old(self).answers@,
                forall|j: int|
                    i <= j < n ==> #[trigger] self.slots@[j] == old(self).slots@[j],
                forall|j: int| 0 <= j < i ==> (#[trigger] self.slots@[j]) is None,
                forall|j: int|
                    0 <= j < i ==> if old(self)@.live[j] {
                        #[trigger] self.logs@[j] == old(self)@.logs[j].push(Event::Completed)
                    } else {
                        self.logs@[j] == old(self)@.logs[j]
                    },
                forall|j: int| i <= j < n ==> #[trigger] self.logs@[j] == old(self)@.logs[j],
                old(self).wf(),
            decreases n - i,
        {
            let ghost prev_logs = self.logs@;
            let mut slot: Option<O> = None;
            core::mem::swap(&mut slot, &mut self.slots[i]);
            assert(old(self)@.live[i as int] == (old(self).slots@[i as int] is Some));
            if let Some(mut o) = slot {
                o.on_completed();
                self.logs = Ghost(self.logs@.update(i as int, o.received()));
                self.trace = Ghost(self.trace@.push((i as int, o.received().last())));
            }
            proof {
                lemma_round_same(old(self)@.live, self.logs@, prev_logs, i as int);
            }
            i = i + 1;
        }
        assert(self@.live =~= old(self)@.completed().live);
        assert(self@.logs =~= old(self)@.completed().logs);
    }

    /// Delivers a copy of `error` once to each live observer, then
    /// terminates and releases them all; nothing if it has already
    /// terminated. Every live observer must take failures.
    pub fn on_error(&mut self, error: E)
        where
            E: Clone,
        requires
            old(self).wf(),
            old(self).failure_safe(),
        ensures
            final(self).wf(),
            old(self)@.failed(error, final(self)@),
            final(self).failure_safe(),
    {
        if self.terminated {
            return;
        }
        self.terminated = true;
        let n: usize = self.slots.len();
        let mut i: usize = 0;
        while i < n
            invariant
                n == self.slots@.len(),
                n == old(self).slots@.len(),
                0 <= i <= n,
                self.terminated,
                self.slots@.len() == self.logs@.len(),
                self.trace@ == old(self).trace@ + round(old(self)@.live, self.logs@, i as int),
                self.steady@ == old(self).steady@,
                self.answers@ == old(self).answers@,
                forall|j: int|
                    i <= j < n ==> #[trigger] self.slots@[j] == old(self).slots@[j],
                forall|j: int| 0 <= j < i ==> (#[trigger] self.slots@[j]) is None,
                forall|j: int|
                    0 <= j < i ==> if old(self)@.live[j] {
                        delivered_failure(old(self)@.logs[j], error, #[trigger] self.logs@[j])
                    } else {
                        self.logs@[j] == old(self)@.logs[j]
                    },
                forall|j: int| i <= j < n ==> #[trigger] self.logs@[j] == old(self)@.logs[j],
                old(self).wf(),
                old(self).failure_safe(),
            decreases n - i,
        {
            let ghost prev_logs = self.logs@;
            let mut slot: Option<O> = None;
            core::mem::swap(&mut slot, &mut self.slots[i]);
            assert(old(self)@.live[i as int] == (old(self).slots@[i as int] is Some));
            if let Some(mut o) = slot {
                let copy = error.clone();
                let ghost before = o.received();
                o.on_error(copy);
                self.logs = Ghost(self.logs@.update(i as int, o.received()));
                self.trace = Ghost(self.trace@.push((i as int, o.received().last())));
                assert(o.received().drop_last() =~= before);
            }
            proof {
                lemma_round_same(old(self)@.live, self.logs@, prev_logs, i as int);
            }
            i = i + 1;
        }
        assert(self@.live =~= Seq::new(old(self)@.live.len(), |i: int| false));
    }
}

/// `views[k + 1]` is `views[k]` after pushing `items[k]`, for each `k`.
pub open spec fn pushes<T: Clone, E>(views: Seq<SubjectView<T, E>>, items: Seq<T>) -> bool {
    &&& views.len() == items.len() + 1
    &&& forall|k: int| 0 <= k < items.len() ==> #[trigger] views[k].pushed(items[k], views[k + 1])
}

/// `log` is `history` followed by a copy of each of the first `n` items,
/// in order, and nothing else.
pub open spec fn copies_after<T: Clone, E>(
    log: Seq<Event<T, E>>,
    history: Seq<Event<T, E>>,
    items: Seq<T>,
    n: int,
) -> bool {
    &&& log.len() == history.len() + n
    &&& log.subrange(0, history.len() as int) == history
    &&& forall|k: int|
        0 <= k < n ==> {
            &&& (#[trigger] log[history.len() + k]) is Next
            &&& cloned(items[k], log[history.len() + k]->Next_0)
        }
}

proof fn lemma_no_replay_upto<T: Clone, E>(
    views: Seq<SubjectView<T, E>>,
    items: Seq<T>,
    history: Seq<Event<T, E>>,
    stays: bool,
    n: int,
)
    requires
        views[0] == SubjectView::<T, E>::fresh().subscribed(history, true, stays),
        pushes(views, items),
        0 <= n <= items.len(),
    ensures
        !views[n].terminated,
        views[n].live == seq![true],
        views[n].steady == seq![true],
        views[n].logs.len() == 1,
        copies_after(views[n].logs[0], history, items, n),
    decreases n,
{
    if n == 0 {
        assert(views[0].live =~= seq![true]);
        assert(views[0].steady =~= seq![true]);
        assert(views[0].logs[0].subrange(0, history.len() as int) =~= history);
    } else {
        lemma_no_replay_upto(views, items, history, stays, n - 1);
        let k = n - 1;
        assert(views[k].pushed(items[k], views[k + 1]));
        let before = views[k];
        let after = views[n];
        assert(after.live[0]);
        assert(after.live =~= seq![true]);
        assert(delivered(before.logs[0], items[n - 1], after.logs[0]));
        let log = after.logs[0];
        assert(log.drop_last() == before.logs[0]);
        assert(log.subrange(0, history.len() as int) =~= history) by {
            assert(log.subrange(0, history.len() as int) =~= before.logs[0].subrange(
                0,
                history.len() as int,
            ));
        }
        assert forall|j: int| 0 <= j < n implies {
            &&& (#[trigger] log[history.len() + j]) is Next
            &&& cloned(items[j], log[history.len() + j]->Next_0)
        } by {
            if j < n - 1 {
                assert(log[history.len() + j] == before.logs[0][history.len() + j]);
            }
        }
    }
}

/// A fresh subject with one subscriber whose observer never leaves on its
/// own: after `items` are pushed one by one, it is still subscribed and has
/// received a copy of each, in order, on top of what it held when it
/// subscribed, and nothing from before it subscribed.
pub proof fn lemma_no_replay<T: Clone, E>(
    views: Seq<SubjectView<T, E>>,
    items: Seq<T>,
    history: Seq<Event<T, E>>,
    stays: bool,
)
    requires
        views[0] == SubjectView::<T, E>::fresh().subscribed(history, true, stays),
        pushes(views, items),
    ensures
        views[items.len() as int].live[0],
        copies_after(views[items.len() as int].logs[0], history, items, items.len() as int),
{
    lemma_no_replay_upto(views, items, history, stays, items.len() as int);
}

/// One push into a subject with two live subscriptions gives each of them
/// exactly one new event: its own copy of the value.
pub proof fn lemma_copy_per_subscriber<T: Clone, E>(
    before: SubjectView<T, E>,
    item: T,
    after: SubjectView<T, E>,
    a: int,
    b: int,
)
    requires
        before.pushed(item, after),
        !before.terminated,
        0 <= a < before.logs.len(),
        0 <= b < before.logs.len(),
        before.live.len() == before.logs.len(),
        a != b,
        before.live[a],
        before.live[b],
    ensures
        after.logs[a] == before.logs[a].push(after.logs[a].last()),
        after.logs[b] == before.logs[b].push(after.logs[b].last()),
        after.logs[a].last() is Next && cloned(item, after.logs[a].last()->Next_0),
        after.logs[b].last() is Next && cloned(item, after.logs[b].last()->Next_0),
{
    assert(delivered(before.logs[a], item, after.logs[a]));
    assert(delivered(before.logs[b], item, after.logs[b]));
    assert(after.logs[a] =~= before.logs[a].push(after.logs[a].last()));
    assert(after.logs[b] =~= before.logs[b].push(after.logs[b].last()));
}

proof fn lemma_silent_upto<T: Clone, E>(
    views: Seq<SubjectView<T, E>>,
    items: Seq<T>,
    id: int,
    n: int,
)
    requires
        pushes(views, items),
        0 <= id < views[0].logs.len(),
        views[0].live.len() == views[0].logs.len(),
        !views[0].live[id],
        0 <= n <= items.len(),
    ensures
        views[n].logs.len() == views[0].logs.len(),
        views[n].live.len() == views[0].logs.len(),
        !views[n].live[id],
        views[n].logs[id] == views[0].logs[id],
    decreases n,
{
    if n > 0 {
        lemma_silent_upto(views, items, id, n - 1);
        let k = n - 1;
        assert(views[k].pushed(items[k], views[k + 1]));
    }
}

/// A subscriber of a fresh subject whose observer answers `wants_more`
/// with `false` after the first value (it ended its own subscription while
/// handling it) receives that one value and nothing after it,
/// however many more are pushed.
pub proof fn lemma_unsubscribe_in_handler<T: Clone, E>(
    views: Seq<SubjectView<T, E>>,
    items: Seq<T>,
    history: Seq<Event<T, E>>,
    steady: bool,
    stays: bool,
)
    requires
        views[0] == SubjectView::<T, E>::fresh().subscribed(history, steady, stays),
        pushes(views, items),
        items.len() >= 1,
        !views[1].answers[0],
    ensures
        views[items.len() as int].logs[0].len() == history.len() + 1,
        views[items.len() as int].logs[0].drop_last() == history,
        views[items.len() as int].logs[0].last() is Next,
        cloned(items[0], views[items.len() as int].logs[0].last()->Next_0),
{
    let z: int = 0;
    assert(views[z].pushed(items[z], views[z + 1]));
    assert(views[0].live[0]);
    assert(delivered(views[0].logs[0], items[0], views[1].logs[0]));
    let rest = views.subrange(1, views.len() as int);
    let later = items.subrange(1, items.len() as int);
    assert forall|k: int| 0 <= k < later.len() implies #[trigger] rest[k].pushed(
        later[k],
        rest[k + 1],
    ) by {
        assert(views[k + 1].pushed(items[k + 1], views[(k + 1) + 1]));
    }
    lemma_silent_upto(rest, later, 0, later.len() as int);
    assert(rest[later.len() as int] == views[items.len() as int]);
}

/// Once a subscription has ended, however many values are pushed, what it
/// received stays as it was, and a later completion or failure does not
/// reach it either.
pub proof fn lemma_unsubscribed_hears_nothing<T: Clone, E: Clone>(
    before: SubjectView<T, E>,
    views: Seq<SubjectView<T, E>>,
    items: Seq<T>,
    id: int,
)
    requires
        0 <= id < before.logs.len(),
        before.live.len() == before.logs.len(),
        views[0] == before.unsubscribed(id),
        pushes(views, items),
    ensures
        views[items.len() as int].logs[id] == before.logs[id],
        views[items.len() as int].completed().logs[id] == before.logs[id],
        forall|error: E, after: SubjectView<T, E>|
            #[trigger] views[items.len() as int].failed(error, after) ==> after.logs[id]
                == before.logs[id],
{
    lemma_silent_upto(views, items, id, items.len() as int);
}

/// Completing a subject twice is completing it once: each subscription
/// live at the first call gets exactly one completion.
pub proof fn lemma_complete_once<T, E>(v: SubjectView<T, E>)
    requires
        v.live.len() == v.logs.len(),
    ensures
        v.completed().completed() == v.completed(),
        !v.terminated ==> forall|i: int|
            0 <= i < v.logs.len() && v.live[i] ==> (#[trigger] v.completed().completed().logs[i])
                == v.logs[i].push(Event::Completed),
{
}

/// Within one push, completion or failure, deliveries go in order of
/// subscription: first subscribed, first notified, each live subscription
/// once and no other.
pub proof fn lemma_round_in_order<T, E>(live: Seq<bool>, logs: Seq<Seq<Event<T, E>>>, n: int)
    requires
        0 <= n <= live.len(),
    ensures
        forall|a: int, b: int|
            0 <= a < b < round(live, logs, n).len() ==> (#[trigger] round(live, logs, n)[a]).0
                < (#[trigger] round(live, logs, n)[b]).0,
        forall|a: int|
            0 <= a < round(live, logs, n).len() ==> {
                let k = (#[trigger] round(live, logs, n)[a]).0;
                &&& 0 <= k < n
                &&& live[k]
                &&& round(live, logs, n)[a].1 == logs[k].last()
            },
        forall|k: int|
            0 <= k < n && live[k] ==> exists|a: int|
                0 <= a < round(live, logs, n).len() && (#[trigger] round(live, logs, n)[a]).0 == k,
    decreases n,
{
    if n > 0 {
        lemma_round_in_order(live, logs, n - 1);
        let r = round(live, logs, n - 1);
        assert forall|k: int| 0 <= k < n && live[k] implies exists|a: int|
            0 <= a < round(live, logs, n).len() && (#[trigger] round(live, logs, n)[a]).0 == k by {
            if k < n - 1 {
                let a = choose|a: int| 0 <= a < r.len() && (#[trigger] r[a]).0 == k;
                assert(round(live, logs, n)[a] == r[a]);
            } else {
                assert(round(live, logs, n)[r.len() as int].0 == k);
            }
        }
    }
}

/// One push gives every live subscription, however many there are,
/// exactly one new event: its own copy of the value; the others get
/// nothing.
pub proof fn lemma_copy_each<T: Clone, E>(before: SubjectView<T, E>, item: T, after: SubjectView<T, E>)
    requires
        before.pushed(item, after),
        !before.terminated,
        before.live.len() == before.logs.len(),
    ensures
        forall|i: int|
            0 <= i < before.logs.len() ==> if before.live[i] {
                &&& #[trigger] after.logs[i] == before.logs[i].push(after.logs[i].last())
                &&& after.logs[i].last() is Next
                &&& cloned(item, after.logs[i].last()->Next_0)
            } else {
                after.logs[i] == before.logs[i]
            },
{
    assert forall|i: int| 0 <= i < before.logs.len() && before.live[i] implies #[trigger] after.logs[i]
        == before.logs[i].push(after.logs[i].last()) by {
        assert(delivered(before.logs[i], item, after.logs[i]));
        assert(after.logs[i] =~= before.logs[i].push(after.logs[i].last()));
    }
}

} // verus!
