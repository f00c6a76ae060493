//! The reactive field and the guard through which it is mutated.
use crate::channels::{Gone, StreamReceiver, Waiter};
use crate::subscribers::{
    lawful_value, Completion, Entry, OnReactiveFieldModification, OnceSubscribers, StreamSubscribers, Subscribable,
    SubscribableOnce, Subscribers,
};
use futures::channel::oneshot;
use std::marker::PhantomData;
use vstd::prelude::*;

verus! {

/// A field to which you can only subscribe for streams of changes.
pub type DefaultReactiveField<T> = ReactiveField<T, StreamSubscribers<T>, T>;

/// A field on which you can only wait for a value with
/// [`ReactiveField::when_eq`].
pub type OnceReactiveField<T> = ReactiveField<T, OnceSubscribers<T>, T>;

/// A field whose streams carry `O`, a projection of the value that the
/// storage computes; build it with [`ReactiveField::new_with_custom`].
pub type CustomReactiveField<T, O> = ReactiveField<T, StreamSubscribers<O>, O>;

/// A field that takes both streams and one-shot waiters.
pub type OnceAndManyReactiveField<T> = ReactiveField<T, Subscribers<T>, T>;

/// A reactive cell: it holds a value of type `T` and tells the subscribers in
/// `S` about every change of it. Streams carry values of type `O`.
///
/// The value is read freely and changed only through the guard that
/// [`ReactiveField::borrow_mut`] returns; the subscribers hear of a change
/// when that guard is released, and only if the value really changed.
pub struct ReactiveField<T, S, O> {
    data: T,
    subs: S,
    _subscribable_output: PhantomData<O>,
}

impl<T, S, O> ReactiveField<T, S, O> {
    /// The value held.
    pub closed spec fn value(&self) -> T {
        self.data
    }

    /// The subscriber storage.
    pub closed spec fn subscribers(&self) -> S {
        self.subs
    }

    /// The subscriber storage, to inspect.
    pub fn storage(&self) -> (r: &S)
        ensures
            *r == self.subscribers(),
    {
        &self.subs
    }

    /// Reads the value; this never notifies anyone.
    pub fn read(&self) -> (r: &T)
        ensures
            *r == self.value(),
    {
        &self.data
    }
}

impl<T> ReactiveField<T, StreamSubscribers<T>, T> {
    /// Makes a field holding `data` with no streams yet.
    pub fn new(data: T) -> (f: Self)
        ensures
            f.value() == data,
            f.subscribers().storage().entries() == Seq::<Entry<T>>::empty(),
            f.subscribers().storage().completions() == Seq::<Completion>::empty(),
            f.subscribers().storage().gone() == Seq::<Gone>::empty(),
            f.subscribers().storage().next_id() == 0,
    {
        ReactiveField { data, subs: StreamSubscribers::new(), _subscribable_output: PhantomData }
    }
}

impl<T> ReactiveField<T, OnceSubscribers<T>, T> {
    /// Makes a field holding `data` with no waiters yet.
    pub fn new(data: T) -> (f: Self)
        ensures
            f.value() == data,
            f.subscribers().storage().entries() == Seq::<Entry<T>>::empty(),
            f.subscribers().storage().completions() == Seq::<Completion>::empty(),
            f.subscribers().storage().gone() == Seq::<Gone>::empty(),
            f.subscribers().storage().next_id() == 0,
    {
        ReactiveField { data, subs: OnceSubscribers::new(), _subscribable_output: PhantomData }
    }
}

impl<T> ReactiveField<T, Subscribers<T>, T> {
    /// Makes a field holding `data` with no subscribers yet.
    pub fn new(data: T) -> (f: Self)
        ensures
            f.value() == data,
            f.subscribers().entries() == Seq::<Entry<T>>::empty(),
            f.subscribers().completions() == Seq::<Completion>::empty(),
            f.subscribers().gone() == Seq::<Gone>::empty(),
            f.subscribers().next_id() == 0,
    {
        ReactiveField { data, subs: Subscribers::new(), _subscribable_output: PhantomData }
    }
}

impl<T, S: Subscribable<O>, O> ReactiveField<T, S, O> {
    /// Makes a field holding `data` whose subscribers live in `subs`, a
    /// storage of the caller's choice (one that projects the value into
    /// another type, say).
    pub fn new_with_custom(data: T, subs: S) -> (f: Self)
        ensures
            f.value() == data,
            f.subscribers() == subs,
    {
        ReactiveField { data, subs, _subscribable_output: PhantomData }
    }

    /// Registers a stream of every later change of the value. Nothing is
    /// replayed: the stream starts with the next change.
    pub fn subscribe(&mut self) -> (rx: StreamReceiver<O>)
        ensures
            final(self).value() == old(self).value(),
            old(self).subscribers().subscribed(final(self).subscribers(), rx),
    {
        self.subs.subscribe()
    }
}

impl<T, S: SubscribableOnce<T>, O> ReactiveField<T, S, O> {
    /// Returns a future that completes on the first later mutation that
    /// leaves the value equal to `should_be`; it yields
    /// `Err(Canceled)` if the field goes away first.
    ///
    /// The waiter is always registered, even when the value already equals
    /// `should_be`: it is the next mutation that leaves the value there that
    /// completes it.
    ///
    /// A waiter waits for one value; the storage holds every waiter in the
    /// same form, a target and a channel.
    pub fn when_eq(&mut self, should_be: T) -> (rx: Waiter)
        ensures
            final(self).value() == old(self).value(),
            old(self).subscribers().awaits(should_be, final(self).subscribers(), rx),
    {
        self.subs.subscribe_once(should_be)
    }
}

impl<T: Clone + PartialEq, S: OnReactiveFieldModification<T>, O> ReactiveField<T, S, O> {
    /// Returns the guard through which the value is mutated. When the guard
    /// is released, the subscribers are notified once, and only if the value
    /// then differs from what it was here.
    pub fn borrow_mut(&mut self) -> (g: MutReactiveFieldGuard<'_, T, S>)
        ensures
            *g.data == old(self).value(),
            lawful_value::<T>() ==> g.snapshot() == old(self).value(),
            *g.subs == old(self).subscribers(),
            final(self).value() == *final(g.data),
            final(self).subscribers() == *final(g.subs),
    {
        let value_before_mutation = self.data.clone();
        proof {
            if lawful_value::<T>() {
                assert(vstd::pervasive::strictly_cloned(self.data, value_before_mutation));
            }
        }
        MutReactiveFieldGuard {
            data: &mut self.data,
            subs: &mut self.subs,
            value_before_mutation: Snapshot(value_before_mutation),
        }
    }
}

/// What releasing a guard does to the subscribers: nothing when the value
/// equals the snapshot taken at the start, one notification pass carrying
/// the value otherwise.
pub open spec fn released<T, S: OnReactiveFieldModification<T>>(
    snapshot: T,
    value: T,
    before: S,
    after: S,
) -> bool {
    if value == snapshot {
        after == before
    } else {
        before.notified(value, after)
    }
}

/// Exclusive access to a field's value for one mutation scope. Writes go
/// through `data` to the field at once (`*guard.data += 1`); the subscribers
/// hear of them when the guard is released with
/// [`MutReactiveFieldGuard::release`], which compares the value with
/// `value_before_mutation`.
///
/// Release is explicit: a guard that goes out of scope without `release`
/// notifies nobody, whatever was written. `data` and `subs` are public so
/// that the value can be written in place; the snapshot can be read in
/// contracts but not built or changed outside this module.
#[must_use]
pub struct MutReactiveFieldGuard<'a, T, S> {
    /// The field's value.
    pub data: &'a mut T,
    /// The field's subscribers.
    pub subs: &'a mut S,
    /// The value when the guard was made, which `release` compares against.
    pub value_before_mutation: Snapshot<T>,
}

/// A copy of a field's value taken when a guard was made.
pub struct Snapshot<T>(T);

impl<T> Snapshot<T> {
    pub closed spec fn value(&self) -> T {
        self.0
    }
}

impl<'a, T, S> MutReactiveFieldGuard<'a, T, S> {
    /// The value when the guard was made, which `release` compares against.
    pub open spec fn snapshot(&self) -> T {
        self.value_before_mutation.value()
    }
}

impl<'a, T: Clone + PartialEq, S: OnReactiveFieldModification<T>> MutReactiveFieldGuard<'a, T, S> {
    /// Ends the mutation scope: when the value differs from the snapshot, the
    /// subscribers get one notification pass carrying it.
    pub fn release(self)
        ensures
            *final(self.data) == *old(self.data),
            *final(self.subs) == *old(self.subs) || (*old(self.subs)).notified(
                *old(self.data),
                *final(self.subs),
            ),
            lawful_value::<T>() ==> released(
                self.snapshot(),
                *old(self.data),
                *old(self.subs),
                *final(self.subs),
            ),
    {
        let MutReactiveFieldGuard { data, subs, value_before_mutation } = self;
        if *data != value_before_mutation.0 {
            subs.on_modify(&*data);
        }
    }
}

impl<T, S, O> std::ops::Deref for ReactiveField<T, S, O> {
    type Target = T;

    fn deref(&self) -> (r: &T)
        ensures
            *r == self.value(),
    {
        &self.data
    }
}

/// What a one-shot waiter gets instead of `()` when its field, or the
/// channel to it, went away before the value it waited for came:
/// `rx.await.map_err(Dropped::from)`.
#[derive(Debug)]
pub struct Dropped;

impl From<oneshot::Canceled> for Dropped {
    fn from(_canceled: oneshot::Canceled) -> (d: Self) {
        Dropped
    }
}

impl vstd::std_specs::convert::FromSpecImpl<oneshot::Canceled> for Dropped {
    open spec fn obeys_from_spec() -> bool {
        true
    }

    open spec fn from_spec(v: oneshot::Canceled) -> Self {
        Dropped
    }
}

} // verus!
