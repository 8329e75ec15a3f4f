use rx::{
    CompletedObserver, Concat, ErrorObserver, Event, Never, NextObserver, Observable, ResultObserver, Side,
    Subject, UntilObserver,
};
use std::cell::RefCell;
use std::rc::Rc;

// Generator tests

#[test]
fn never() {
    let mut never = Never::new();
    let _subscription = never.subscribe_error(
        |_x: u8| panic!("never observable should not produce a value"),
        || panic!("never observable should not complete"),
        |_err: ()| panic!("never observable should not fail"),
    );

    // Without something like a message loop, the observable cannot suddenly
    // start pushing values, so if it did not produce anything here, it never
    // will.
}

// Option tests

#[test]
fn option_subscribe_next() {
    let mut received = None;

    // Subscribing to `Some` should push the value.
    Some(19).subscribe_next(|x| received = Some(x));
    assert_eq!(Some(19), received);

    None.subscribe_next(|_x: u32| panic!("none should not push a value"));
}

#[test]
fn option_subscribe_completed() {
    let mut received = None;
    let mut completed = false;

    // Subscribing to `Some` should complete after pushing the value.
    Some(19).subscribe_completed(|x| received = Some(x), || completed = true);
    assert_eq!(Some(19), received);
    assert!(completed);

    // Subscribing to `None` should complete without pushing a value.
    completed = false;
    None.subscribe_completed(
        |_x: u32| panic!("none should not push a value"),
        || completed = true,
    );
    assert!(completed);
}

#[test]
fn option_subscribe_error() {
    let mut received = None;
    let mut completed = false;

    Some(23).subscribe_error(
        |x| received = Some(x),
        || completed = true,
        |_err| panic!("some observable should not fail"),
    );
    assert_eq!(Some(23), received);
    assert!(completed);

    completed = false;
    None.subscribe_error(
        |_x: u32| panic!("none should not push a value"),
        || completed = true,
        |_err| panic!("none observable should not fail"),
    );
    assert!(completed);
}

// Result tests

#[test]
fn result_subscribe_next_ok() {
    let mut result: Result<u32, ()> = Ok(13);
    let mut received = None;
    result.subscribe_next(|x| received = Some(x));
    assert_eq!(Some(13), received);
}

#[test]
#[should_panic]
fn result_subscribe_next_err() {
    let mut result: Result<u32, ()> = Err(());
    let mut received = None;

    // This should panic, because no error handler was given.
    result.subscribe_next(|x| received = Some(x));
}

#[test]
fn result_subscribe_completed_ok() {
    let mut result: Result<u32, ()> = Ok(13);
    let mut received = None;
    let mut completed = false;
    result.subscribe_completed(|x| received = Some(x), || completed = true);
    assert_eq!(Some(13), received);
    assert!(completed);
}

#[test]
fn result_subscribe_error_ok() {
    let mut result: Result<u32, ()> = Ok(13);
    let mut received = None;
    let mut completed = false;
    result.subscribe_error(
        |x| received = Some(x),
        || completed = true,
        |_err| panic!("ok result should not be a failing observable"),
    );
    assert_eq!(Some(13), received);
    assert!(completed);
}

#[test]
fn result_subscribe_error_err() {
    let mut result: Result<(), u32> = Err(17);
    let mut error = None;
    result.subscribe_error(
        |_x| panic!("err result should not push a value"),
        || panic!("err result should not complete"),
        |err| error = Some(err),
    );
    assert_eq!(Some(17), error);
}

// Slice tests

#[test]
fn slice_subscribe_next() {
    let mut values: &[u8] = &[2u8, 3, 5, 7, 11, 13];
    let mut received = Vec::new();
    values.subscribe_next(|&x| received.push(x));
    assert_eq!(&values[..], &received[..]);
}

#[test]
fn slice_subscribe_completed() {
    let mut values: &[u8] = &[2u8, 3, 5, 7, 11, 13];
    let mut received = Vec::new();
    let mut completed = false;
    values.subscribe_completed(|&x| received.push(x), || completed = true);
    assert_eq!(&values[..], &received[..]);
    assert!(completed);
}

#[test]
fn slice_subscribe_error() {
    let mut values: &[u8] = &[2u8, 3, 5, 7, 11, 13];
    let mut received = Vec::new();
    let mut completed = false;
    let mut failed = false;
    values.subscribe_error(|&x| received.push(x), || completed = true, |_err| failed = true);
    assert_eq!(&values[..], &received[..]);
    assert!(completed);
    assert!(!failed);
}

#[test]
fn slice_subscribe_option() {
    let mut values: &[u8] = &[2u8, 3, 5, 7, 11, 13];
    let expected = &[Some(2u8), Some(3), Some(5), Some(7), Some(11), Some(13), None];
    let mut received = Vec::new();
    values.subscribe_option(|x| received.push(x.cloned()));
    assert_eq!(&received[..], &expected[..]);
}

#[test]
fn slice_subscribe_result() {
    let mut values: &[u8] = &[2u8, 3, 5, 7];
    let expected = &[Ok(Some(2u8)), Ok(Some(3)), Ok(Some(5)), Ok(Some(7)), Ok(None)];
    let mut received = Vec::new();
    values.subscribe_result(|x| received.push(x.map(|y| y.cloned())));
    assert_eq!(&received[..], &expected[..]);
}

// Subject tests

#[test]
fn subject_on_next() {
    let mut subject = Subject::new();
    let received = Rc::new(RefCell::new(Vec::new()));
    let sink = received.clone();
    let _subscription = subject.subscribe(NextObserver::<u8, (), _>::new(move |x| sink.borrow_mut().push(x)));

    // Subject should not push anything upon subscription.
    assert_eq!(0, received.borrow().len());

    let values = &[2u8, 3, 5, 7, 11, 13];
    for i in 0..values.len() {
        subject.on_next(values[i]);
        assert_eq!(&values[..i + 1], &received.borrow()[..]);
    }
}

#[test]
fn subject_on_completed() {
    let mut subject = Subject::new();
    let completed = Rc::new(RefCell::new(false));
    let flag = completed.clone();
    let _subscription = subject.subscribe(CompletedObserver::<u8, (), _, _>::new(
        |_x| panic!("no value should be pushed"),
        move || *flag.borrow_mut() = true,
    ));

    // Subject should not push anything upon subscription.
    assert!(!*completed.borrow());

    subject.on_completed();
    assert!(*completed.borrow());
}

#[test]
fn subject_on_error() {
    let mut subject = Subject::new();
    let error = Rc::new(RefCell::new(0u8));
    let slot = error.clone();
    let _subscription = subject.subscribe(ErrorObserver::<u8, u8, _, _, _>::new(
        |_x| panic!("no value should be pushed"),
        || panic!("subject should not complete"),
        move |err| *slot.borrow_mut() = err,
    ));

    // Subject should not fail upon subscription.
    assert_eq!(0, *error.borrow());

    subject.on_error(41);
    assert_eq!(41, *error.borrow());
}

/// Counts how often it is cloned.
struct CloneCounter {
    counter: Rc<RefCell<u32>>,
}

impl Clone for CloneCounter {
    fn clone(&self) -> CloneCounter {
        let count: u32 = *self.counter.borrow();
        *self.counter.borrow_mut() = count + 1;
        CloneCounter { counter: self.counter.clone() }
    }
}

type Boxed<T> = NextObserver<T, (), Box<dyn FnMut(T)>>;

#[test]
fn subject_clones_once_per_observer() {
    let mut subject: Subject<CloneCounter, (), Boxed<CloneCounter>> = Subject::new();
    let first_called = Rc::new(RefCell::new(false));
    let second_called = Rc::new(RefCell::new(false));
    let counter = CloneCounter { counter: Rc::new(RefCell::new(0)) };

    // Subscribe twice.
    let f = first_called.clone();
    let s = second_called.clone();
    let _s1 = subject.subscribe(NextObserver::new(Box::new(move |_x| *f.borrow_mut() = true)));
    let _s2 = subject.subscribe(NextObserver::new(Box::new(move |_x| *s.borrow_mut() = true)));

    // Nothing should have been cloned yet.
    assert_eq!(0, *counter.counter.borrow());

    subject.on_next(counter.clone());

    // Cloned once here, and once per subscription by the subject.
    assert_eq!(3, *counter.counter.borrow());
    assert!(*first_called.borrow());
    assert!(*second_called.borrow());
}

#[test]
fn subject_drop_subscription() {
    let mut subject = Subject::new();
    let received = Rc::new(RefCell::new(Vec::new()));
    let sink = received.clone();
    let subscription = subject.subscribe(NextObserver::<u8, (), _>::new(move |x| sink.borrow_mut().push(x)));

    subject.on_next(2);
    subject.on_next(3);
    subject.on_next(5);

    assert_eq!(&[2u8, 3, 5], &received.borrow()[..]);

    subject.unsubscribe(&subscription);

    subject.on_next(7);
    subject.on_next(11);

    // Values pushed after the subscription ended do not arrive.
    assert_eq!(&[2u8, 3, 5], &received.borrow()[..]);
}

type BoxedAll = ErrorObserver<u8, (), Box<dyn FnMut(u8)>, Box<dyn FnOnce()>, Box<dyn FnOnce(())>>;

#[test]
fn subject_drop_subscription_multi() {
    let mut subject: Subject<u8, (), BoxedAll> = Subject::new();
    let received = Rc::new(RefCell::new(Vec::new()));
    let sink = received.clone();
    let _s1 = subject.subscribe(ErrorObserver::new(
        Box::new(move |x| sink.borrow_mut().push(x)),
        Box::new(|| ()),
        Box::new(|_err| ()),
    ));
    let s2 = subject.subscribe(ErrorObserver::new(
        Box::new(|_x| panic!("no value should be pushed after dropping subscription")),
        Box::new(|| panic!("completion should not be signalled after dropping subscription")),
        Box::new(|_err| panic!("failure should not be signalled after dropping subscription")),
    ));

    subject.unsubscribe(&s2);

    subject.on_next(2);
    subject.on_next(3);
    subject.on_next(5);
    subject.on_completed();

    assert_eq!(&[2u8, 3, 5], &received.borrow()[..]);
}

#[test]
fn subject_drop_in_handler() {
    let mut subject = Subject::new();
    let received = Rc::new(RefCell::new(Vec::new()));
    let sink = received.clone();
    // The handler ends its own subscription on the first value.
    let _subscription = subject.subscribe(UntilObserver::<u8, (), _>::new(move |x| {
        sink.borrow_mut().push(x);
        false
    }));

    subject.on_next(2);
    assert_eq!(&[2u8], &received.borrow()[..]);

    subject.on_next(3);
    assert_eq!(&[2u8], &received.borrow()[..]);
}

#[test]
fn subject_drop_in_handler_spares_siblings() {
    type Until = UntilObserver<u8, (), Box<dyn FnMut(u8) -> bool>>;
    let mut subject: Subject<u8, (), Until> = Subject::new();
    let first = Rc::new(RefCell::new(Vec::new()));
    let second = Rc::new(RefCell::new(Vec::new()));
    let f = first.clone();
    let s = second.clone();
    let _s1 = subject.subscribe(UntilObserver::new(Box::new(move |x| {
        f.borrow_mut().push(x);
        false
    })));
    let _s2 = subject.subscribe(UntilObserver::new(Box::new(move |x| {
        s.borrow_mut().push(x);
        true
    })));
    subject.on_next(2);
    subject.on_next(3);
    subject.on_next(5);
    assert_eq!(&[2u8][..], &first.borrow()[..]);
    assert_eq!(&[2u8, 3, 5][..], &second.borrow()[..]);
}

#[test]
fn subject_continue_with() {
    let mut concat = Concat::new();
    let mut received = Vec::new();
    let mut completed = false;
    let mut feed = |concat: &mut Concat, side: Side, event: Event<u8, ()>| match concat.step(side, event) {
        Some(Event::Next(x)) => received.push(x),
        Some(Event::Completed) => completed = true,
        Some(Event::Failed(_)) => panic!("the composition should not fail"),
        None => (),
    };

    feed(&mut concat, Side::First, Event::Next(2));
    // If `second` produces a value, it is not passed on,
    // because `first` has not yet completed.
    feed(&mut concat, Side::Second, Event::Next(3));
    feed(&mut concat, Side::First, Event::Next(5));
    // Completing `first` neither completes the composition nor pushes a value.
    feed(&mut concat, Side::First, Event::Completed);
    assert!(!concat.is_terminated());
    // Now values of `second` are passed on.
    feed(&mut concat, Side::Second, Event::Next(7));
    feed(&mut concat, Side::Second, Event::Completed);
    assert!(concat.is_terminated());
    drop(feed);
    assert_eq!(&[2u8, 5, 7][..], &received[..]);
    assert!(completed);
}

// Transform tests

#[test]
fn continue_with() {
    let (mut first, mut second): (&[u8], &[u8]) = (&[2u8, 3, 5, 7], &[11u8, 13, 17, 19]);
    let expected = &[2u8, 3, 5, 7, 11, 13, 17, 19];
    let mut received = Vec::new();
    let mut continued = first.continue_with(&mut second);
    continued.subscribe_next(|&x| received.push(x));
    assert_eq!(&expected[..], &received[..]);
}

#[test]
fn map() {
    let values: &[u8] = &[2u8, 3, 5, 7, 11, 13];
    let expected = &[4u8, 6, 10, 14, 22, 26];
    let mut received = Vec::new();
    let mut mapped = values.map(|x| x * 2);
    mapped.subscribe_next(|x| received.push(x));
    assert_eq!(&expected[..], &received[..]);
}

#[test]
fn map_does_not_change_error() {
    let mut error = None;
    let mut mapped = Err(23_u32).map(|x: u32| format!("{}", x));
    mapped.subscribe_error(
        |_x: String| panic!("mapped error should not produce a value"),
        || panic!("mapped error should not complete"),
        |err| error = Some(err),
    );
    assert_eq!(Some(23), error);
}

#[test]
fn map_error() {
    let mut error = None;
    let mut observable = Err(23_u32);
    let mut mapped = observable.map_error(|x| x * 2);
    mapped.subscribe_error(
        |_x: u32| panic!("mapped error should not produce a value"),
        || panic!("mapped error should not complete"),
        |err| error = Some(err),
    );
    assert_eq!(Some(46), error);
}

#[test]
fn map_error_does_not_change_values() {
    let values: &[u8] = &[2u8, 3, 5, 7, 11, 13];
    let mut received = Vec::new();
    let mut mapped = values.map_error(|_unit| 17u8);
    mapped.subscribe_next(|&x| received.push(x));
    assert_eq!(&values[..], &received[..]);
}

// Further cases

#[test]
fn subject_completes_each_observer_once() {
    let mut subject = Subject::new();
    let count = Rc::new(RefCell::new(0u32));
    let c = count.clone();
    let _subscription = subject.subscribe(CompletedObserver::<u8, (), _, _>::new(
        |_x| panic!("no value should be pushed"),
        move || *c.borrow_mut() += 1,
    ));
    subject.on_completed();
    subject.on_completed();
    assert_eq!(1, *count.borrow());
}

#[test]
fn subject_ignores_pushes_after_termination() {
    let mut subject = Subject::new();
    let received = Rc::new(RefCell::new(Vec::new()));
    let sink = received.clone();
    let _subscription = subject.subscribe(ResultObserver::<u8, u8, _>::new(move |x| sink.borrow_mut().push(x)));
    subject.on_next(4);
    subject.on_error(9);
    subject.on_next(5);
    subject.on_completed();
    subject.on_error(10);
    assert_eq!(&[Ok(Some(4u8)), Err(9u8)][..], &received.borrow()[..]);
}

#[test]
fn subject_late_subscriber_hears_nothing() {
    let mut subject = Subject::new();
    subject.on_completed();
    let late = subject.subscribe(ResultObserver::<u8, (), _>::new(|_x| panic!("a late subscriber hears nothing")));
    subject.on_next(1);
    subject.on_completed();
    subject.unsubscribe(&late);
}

#[test]
fn subject_unsubscribe_twice_is_harmless() {
    let mut subject: Subject<u8, (), Boxed<u8>> = Subject::new();
    let first = Rc::new(RefCell::new(Vec::new()));
    let second = Rc::new(RefCell::new(Vec::new()));
    let f = first.clone();
    let s = second.clone();
    let s1 = subject.subscribe(NextObserver::new(Box::new(move |x| f.borrow_mut().push(x))));
    let _s2 = subject.subscribe(NextObserver::new(Box::new(move |x| s.borrow_mut().push(x))));
    subject.on_next(1);
    subject.unsubscribe(&s1);
    subject.unsubscribe(&s1);
    subject.on_next(2);
    assert_eq!(&[1u8][..], &first.borrow()[..]);
    assert_eq!(&[1u8, 2][..], &second.borrow()[..]);
}

#[test]
fn subject_delivers_in_subscription_order() {
    let mut subject: Subject<u8, (), Boxed<u8>> = Subject::new();
    let order = Rc::new(RefCell::new(Vec::new()));
    let a = order.clone();
    let b = order.clone();
    let _s1 = subject.subscribe(NextObserver::new(Box::new(move |x| a.borrow_mut().push((1u8, x)))));
    let _s2 = subject.subscribe(NextObserver::new(Box::new(move |x| b.borrow_mut().push((2u8, x)))));
    subject.on_next(7);
    subject.on_next(8);
    assert_eq!(&[(1u8, 7u8), (2, 7), (1, 8), (2, 8)][..], &order.borrow()[..]);
}

#[test]
fn concat_first_failure_ends_composition() {
    let mut concat = Concat::new();
    assert_eq!(concat.step(Side::First, Event::<u8, u8>::Next(1)), Some(Event::Next(1)));
    assert_eq!(concat.step(Side::First, Event::<u8, u8>::Failed(6)), Some(Event::Failed(6)));
    assert!(concat.is_terminated());
    assert_eq!(concat.step(Side::Second, Event::<u8, u8>::Next(2)), None);
    assert_eq!(concat.step(Side::Second, Event::<u8, u8>::Completed), None);
}

#[test]
fn concat_second_failure_ends_composition() {
    let mut concat = Concat::new();
    assert_eq!(concat.step(Side::Second, Event::<u8, u8>::Failed(3)), None);
    assert!(!concat.is_terminated());
    assert_eq!(concat.step(Side::First, Event::<u8, u8>::Completed), None);
    assert_eq!(concat.step(Side::Second, Event::<u8, u8>::Failed(4)), Some(Event::Failed(4)));
    assert!(concat.is_terminated());
}

#[test]
fn continue_with_stops_at_first_failure() {
    let mut first: Result<u8, u8> = Err(5);
    let mut second: Result<u8, u8> = Ok(6);
    let mut received = Vec::new();
    first.continue_with(&mut second).subscribe_result(|x| received.push(x));
    assert_eq!(&[Err(5u8)][..], &received[..]);
}

#[test]
fn continue_with_empty_first() {
    let (mut first, mut second): (&[u8], &[u8]) = (&[], &[4u8, 8]);
    let mut received = Vec::new();
    let mut completed = 0;
    first.continue_with(&mut second).subscribe_completed(|&x| received.push(x), || completed += 1);
    assert_eq!(&[4u8, 8][..], &received[..]);
    assert_eq!(1, completed);
}

#[test]
fn map_empty_slice_completes() {
    let values: &[u8] = &[];
    let mut completed = false;
    values.map(|x| x + 1).subscribe_completed(|_x: u8| panic!("nothing to push"), || completed = true);
    assert!(completed);
}

#[test]
fn map_error_keeps_ok_value() {
    let observable: Result<u32, u32> = Ok(8);
    let mut received = Vec::new();
    observable.map_error(|e| e + 1).subscribe_result(|x| received.push(x));
    assert_eq!(&[Ok(Some(8u32)), Ok(None)][..], &received[..]);
}

#[test]
fn option_subscribe_result() {
    let mut received = Vec::new();
    Some(3u8).subscribe_result(|x: Result<Option<u8>, ()>| received.push(x));
    assert_eq!(&[Ok(Some(3u8)), Ok(None)][..], &received[..]);
}

#[test]
fn concat_forward_into_observer() {
    let mut concat = Concat::new();
    let mut received = Vec::new();
    {
        let mut observer = ResultObserver::<u8, (), _>::new(|x| received.push(x));
        concat.forward(Side::First, Event::Next(2), &mut observer);
        concat.forward(Side::Second, Event::Next(3), &mut observer);
        concat.forward(Side::First, Event::Next(5), &mut observer);
        concat.forward(Side::First, Event::Completed, &mut observer);
        concat.forward(Side::Second, Event::Next(7), &mut observer);
        concat.forward(Side::Second, Event::Completed, &mut observer);
        concat.forward(Side::Second, Event::Next(9), &mut observer);
    }
    assert_eq!(&[Ok(Some(2u8)), Ok(Some(5)), Ok(Some(7)), Ok(None)][..], &received[..]);
}

#[test]
fn concat_dispose_stops_forwarding() {
    let mut concat = Concat::new();
    assert_eq!(concat.step(Side::First, Event::<u8, ()>::Next(1)), Some(Event::Next(1)));
    concat.dispose();
    assert!(concat.is_terminated());
    assert_eq!(concat.step(Side::First, Event::<u8, ()>::Next(2)), None);
    assert_eq!(concat.step(Side::First, Event::<u8, ()>::Completed), None);
}
