//! A synchronous, single-threaded reactive-stream engine: sources push
//! values, completion or failure into observers; a multicast `Subject`
//! fans one stream out to many subscribers; `ContinueWith` joins two
//! streams end to end.
pub mod continuation;
pub mod event;
pub mod observable;
pub mod observer;
pub mod subject;
pub mod transform;

pub use continuation::{Concat, ContinuationSubscription, ContinueWith, Phase, Side};
pub use event::Event;
pub use observable::{Never, Observable, UncancellableSubscription};
pub use transform::{MapError, MapValues};
pub use subject::{Subject, SubjectSubscription, SubjectView};
pub use observer::{
    CompletedObserver, ErrorObserver, NextObserver, Observer, OptionObserver, ResultObserver,
    UntilObserver,
};
