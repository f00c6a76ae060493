//! The channels of the `futures` crate that carry notifications out of a
//! reactive field: an unbounded stream for every change, and a one-shot
//! channel for a single wake-up.
//!
//! Each half is held in a type of this library with a ghost identity shared
//! by the two halves of one channel. A stream's sending half also records
//! every value handed to it. Only the functions here make those records and
//! the tokens [`Gone`] and [`Resolution`], so a contract that speaks of
//! them can only be met by calling the channel.
use futures::channel::mpsc;
use futures::channel::oneshot;
use vstd::prelude::*;

verus! {

/// `futures::channel::mpsc::UnboundedSender`.
#[verifier::external_type_specification]
#[verifier::external_body]
#[verifier::reject_recursive_types(T)]
pub struct ExUnboundedSender<T>(mpsc::UnboundedSender<T>);

/// `futures::channel::mpsc::UnboundedReceiver`.
#[verifier::external_type_specification]
#[verifier::external_body]
#[verifier::reject_recursive_types(T)]
pub struct ExUnboundedReceiver<T>(mpsc::UnboundedReceiver<T>);

/// `futures::channel::oneshot::Sender`.
#[verifier::external_type_specification]
#[verifier::external_body]
#[verifier::reject_recursive_types(T)]
pub struct ExOneshotSender<T>(oneshot::Sender<T>);

/// `futures::channel::oneshot::Receiver`.
#[verifier::external_type_specification]
#[verifier::external_body]
#[verifier::reject_recursive_types(T)]
pub struct ExOneshotReceiver<T>(oneshot::Receiver<T>);

/// `futures::channel::oneshot::Canceled`: what a one-shot receiver yields when
/// its sender went away without completing it.
#[verifier::external_type_specification]
#[verifier::external_body]
pub struct ExCanceled(oneshot::Canceled);

/// Proof that the receiver of the channel `chan()` was found gone: a
/// delivery on a stream was refused, or a one-shot waiter was cancelled.
pub struct Gone {
    chan: Ghost<int>,
}

impl Gone {
    pub closed spec fn chan(&self) -> int {
        self.chan@
    }
}

/// Proof that the one-shot channel `chan()` was completed.
pub struct Resolution {
    chan: Ghost<int>,
}

impl Resolution {
    pub closed spec fn chan(&self) -> int {
        self.chan@
    }
}

/// The sending half of a stream of changes, held by a field.
#[verifier::reject_recursive_types(T)]
pub struct StreamSender<T> {
    tx: mpsc::UnboundedSender<T>,
    chan: Ghost<int>,
    sent: Ghost<Seq<T>>,
}

impl<T> StreamSender<T> {
    /// The channel's identity.
    pub closed spec fn chan(&self) -> int {
        self.chan@
    }

    /// Every value handed to the channel, in order.
    pub closed spec fn sent(&self) -> Seq<T> {
        self.sent@
    }

    /// Relies on `futures::channel::mpsc::UnboundedSender::unbounded_send`:
    /// it queues `value` and returns `Ok`, or returns `Err` when the receiver
    /// has gone. Which happens depends on the receiver; either way `value`
    /// was handed to the channel. (It asserts that fewer than
    /// `usize::MAX / 2` messages are queued, a bound that memory runs out
    /// before.)
    #[verifier::external_body]
    pub fn send(&mut self, value: T) -> (r: Result<(), Gone>)
        ensures
            final(self).chan() == old(self).chan(),
            final(self).sent() == old(self).sent().push(value),
            r matches Err(gone) ==> gone.chan() == old(self).chan(),
    {
        self.sent = Ghost(self.sent@.push(value));
        match self.tx.unbounded_send(value) {
            Ok(()) => Ok(()),
            Err(_) => Err(Gone { chan: self.chan }),
        }
    }
}

/// The receiving end of a stream of changes, handed to a subscriber.
#[verifier::reject_recursive_types(T)]
pub struct StreamReceiver<T> {
    rx: mpsc::UnboundedReceiver<T>,
    chan: Ghost<int>,
}

impl<T> StreamReceiver<T> {
    /// The channel's identity.
    pub closed spec fn chan(&self) -> int {
        self.chan@
    }

    /// The `futures` receiver, to read or await.
    pub fn into_inner(self) -> mpsc::UnboundedReceiver<T> {
        self.rx
    }
}

/// Relies on `futures::channel::mpsc::unbounded`: it makes a fresh,
/// connected sender and receiver and never fails.
#[verifier::external_body]
pub fn stream_channel<T>() -> (r: (StreamSender<T>, StreamReceiver<T>))
    ensures
        r.0.chan() == r.1.chan(),
        r.0.sent() == Seq::<T>::empty(),
{
    let (tx, rx) = mpsc::unbounded();
    let chan: Ghost<int> = Ghost(arbitrary());
    (StreamSender { tx, chan, sent: Ghost(Seq::empty()) }, StreamReceiver { rx, chan })
}

/// The sending half of a one-shot wake-up, held by a field.
pub struct WaiterSender {
    tx: oneshot::Sender<()>,
    chan: Ghost<int>,
}

impl WaiterSender {
    /// The channel's identity.
    pub closed spec fn chan(&self) -> int {
        self.chan@
    }

    /// Relies on `futures::channel::oneshot::Sender::send`: it completes the
    /// channel (handing `()` back when the receiver has gone, which is
    /// ignored).
    #[verifier::external_body]
    pub fn complete(self) -> (r: Resolution)
        ensures
            r.chan() == self.chan(),
    {
        let _ = self.tx.send(());
        Resolution { chan: self.chan }
    }

    /// Relies on `futures::channel::oneshot::Sender::is_canceled`: whether the
    /// receiver has gone, given as a [`Gone`] for this channel when it has.
    /// Which happens depends on the receiver.
    #[verifier::external_body]
    pub fn check_canceled(&self) -> (r: Option<Gone>)
        ensures
            r matches Some(gone) ==> gone.chan() == self.chan(),
    {
        if self.tx.is_canceled() {
            Some(Gone { chan: self.chan })
        } else {
            None
        }
    }
}

/// The receiving end of a one-shot wake-up, handed to a waiter.
pub struct Waiter {
    rx: oneshot::Receiver<()>,
    chan: Ghost<int>,
}

impl Waiter {
    /// The channel's identity.
    pub closed spec fn chan(&self) -> int {
        self.chan@
    }

    /// The `futures` receiver, to await: it yields `Ok(())` once completed,
    /// and `Err(Canceled)` if the sending half went away first.
    pub fn into_inner(self) -> oneshot::Receiver<()> {
        self.rx
    }
}

/// Relies on `futures::channel::oneshot::channel`: it makes a fresh,
/// connected sender and receiver and never fails.
#[verifier::external_body]
pub fn waiter_channel() -> (r: (WaiterSender, Waiter))
    ensures
        r.0.chan() == r.1.chan(),
{
    let (tx, rx) = oneshot::channel();
    let chan: Ghost<int> = Ghost(arbitrary());
    (WaiterSender { tx, chan }, Waiter { rx, chan })
}

} // verus!
