use vstd::prelude::*;

verus! {

/// One thing that a source pushes into an observer.
#[derive(Debug, PartialEq, Eq)]
pub enum Event<T, E> {
    Next(T),
    Completed,
    Failed(E),
}

/// A stream is closed once its last event is a terminal one.
pub open spec fn closed<T, E>(s: Seq<Event<T, E>>) -> bool {
    s.len() > 0 && !(s.last() is Next)
}

/// No event follows a terminal one.
pub open spec fn well_formed<T, E>(s: Seq<Event<T, E>>) -> bool {
    forall|i: int| 0 <= i < s.len() - 1 ==> #[trigger] s[i] is Next
}

/// The values of a sequence pushed one by one, then completion.
pub open spec fn replay<T, E>(values: Seq<T>) -> Seq<Event<T, E>> {
    Seq::new(values.len(), |i: int| Event::Next(values[i])).push(Event::Completed)
}

/// A finite source's replay ends in exactly one terminal event, the
/// completion, and holds no other.
pub proof fn lemma_replay_ends_once<T, E>(values: Seq<T>)
    ensures
        well_formed(replay::<T, E>(values)),
        closed(replay::<T, E>(values)),
        replay::<T, E>(values).last() is Completed,
        forall|i: int| 0 <= i < values.len() ==> #[trigger] replay::<T, E>(values)[i] == Event::<T, E>::Next(values[i]),
{
}

/// Pushing a value onto a stream that is not closed keeps it well formed and
/// open; pushing a terminal event closes it.
pub proof fn lemma_push_keeps_well_formed<T, E>(s: Seq<Event<T, E>>, e: Event<T, E>)
    requires
        well_formed(s),
        !closed(s),
    ensures
        well_formed(s.push(e)),
        closed(s.push(e)) == !(e is Next),
{
    assert forall|i: int| 0 <= i < s.push(e).len() - 1 implies #[trigger] s.push(e)[i] is Next by {
        if i < s.len() - 1 {
            assert(s.push(e)[i] == s[i]);
        } else {
            assert(s.push(e)[i] == s.last());
        }
    }
}

} // verus!
