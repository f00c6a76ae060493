//! Subscriber storage and the notification pass that runs over it.
use crate::channels::{
    stream_channel, waiter_channel, Gone, Resolution, StreamReceiver, StreamSender, Waiter,
    WaiterSender,
};
use vstd::pervasive::strictly_cloned;
use vstd::prelude::*;
use vstd::std_specs::cmp::PartialEqSpec;

verus! {

/// The value type compares by value (`==` holds exactly of equal values) and
/// its `clone` hands back an equal value. Integers and `bool` are such types.
pub open spec fn lawful_value<T: Clone + PartialEq>() -> bool {
    &&& T::obeys_eq_spec()
    &&& forall|x: T, y: T| #[trigger] x.eq_spec(&y) <==> x == y
    &&& forall|x: T, y: T| #[trigger] strictly_cloned(x, y) ==> x == y
}

/// `bool` compares and clones by value.
pub proof fn lemma_bool_is_lawful()
    ensures
        lawful_value::<bool>(),
{
}

/// A registered subscriber as the contracts see it: a stream that receives
/// every change, with the values handed to it so far, or a one-shot waiter
/// for the value `target`. Each has an identity, given in the order of
/// registration, and the identity `chan` of its channel.
pub enum Entry<T> {
    Stream { id: nat, chan: int, sent: Seq<T> },
    Once { id: nat, chan: int, target: T },
}

impl<T> Entry<T> {
    pub open spec fn id(self) -> nat {
        match self {
            Entry::Stream { id, .. } => id,
            Entry::Once { id, .. } => id,
        }
    }

    pub open spec fn chan(self) -> int {
        match self {
            Entry::Stream { chan, .. } => chan,
            Entry::Once { chan, .. } => chan,
        }
    }
}

/// A one-shot waiter that a pass completed: its identity and the proof that
/// its channel was completed.
pub struct Completion {
    pub id: nat,
    pub token: Resolution,
}

/// Identities rise strictly along `entries`, and all lie below `next`.
pub open spec fn ids_ascending<T>(entries: Seq<Entry<T>>, next: nat) -> bool {
    &&& forall|i: int, j: int|
        0 <= i < j < entries.len() ==> #[trigger] entries[i].id() < #[trigger] entries[j].id()
    &&& forall|i: int| 0 <= i < entries.len() ==> #[trigger] entries[i].id() < next
}

/// Whether a pass that carries `data` keeps `entry`; `open` says whether its
/// receiver was found still there (a stream's delivery succeeded, a
/// waiter's receiver was not dropped).
pub open spec fn keeps<T>(entry: Entry<T>, data: T, open: bool) -> bool {
    match entry {
        Entry::Stream { .. } => open,
        Entry::Once { target, .. } => target != data && open,
    }
}

/// What a pass that carries `data` leaves of an entry it keeps: a stream has
/// been handed `data`.
pub open spec fn after_pass<T>(entry: Entry<T>, data: T) -> Entry<T> {
    match entry {
        Entry::Stream { id, chan, sent } => Entry::Stream { id, chan, sent: sent.push(data) },
        Entry::Once { .. } => entry,
    }
}

/// The entries that a pass carrying `data` keeps, in their order and as the
/// pass leaves them; `open[i]` is the outcome found for `entries[i]`.
pub open spec fn retained<T>(entries: Seq<Entry<T>>, data: T, open: Seq<bool>) -> Seq<Entry<T>>
    decreases entries.len(),
{
    if entries.len() == 0 {
        Seq::empty()
    } else {
        let rest = retained(entries.drop_last(), data, open.drop_last());
        if keeps(entries.last(), data, open.last()) {
            rest.push(after_pass(entries.last(), data))
        } else {
            rest
        }
    }
}

/// Whether `entry` is a one-shot waiter for `data`.
pub open spec fn waits_for<T>(entry: Entry<T>, data: T) -> bool {
    match entry {
        Entry::Once { target, .. } => target == data,
        Entry::Stream { .. } => false,
    }
}

/// The one-shot waiters among `entries` whose target is `data`, in order.
pub open spec fn satisfied<T>(entries: Seq<Entry<T>>, data: T) -> Seq<Entry<T>>
    decreases entries.len(),
{
    if entries.len() == 0 {
        Seq::empty()
    } else {
        let rest = satisfied(entries.drop_last(), data);
        match entries.last() {
            Entry::Once { target, .. } => if target == data {
                rest.push(entries.last())
            } else {
                rest
            },
            Entry::Stream { .. } => rest,
        }
    }
}

/// `done` completes the waiters `waiters`, one each, in order.
pub open spec fn completes<T>(waiters: Seq<Entry<T>>, done: Seq<Completion>) -> bool {
    &&& done.len() == waiters.len()
    &&& forall|k: int|
        0 <= k < done.len() ==> #[trigger] done[k].id == waiters[k].id() && done[k].token.chan()
            == waiters[k].chan()
}

/// `gone` holds a proof that the receiver of the channel `chan` was found
/// gone.
pub open spec fn found_gone(gone: Seq<Gone>, chan: int) -> bool {
    exists|k: int| 0 <= k < gone.len() && #[trigger] gone[k].chan() == chan
}

/// An entry that a pass carrying `data` found without its receiver is a
/// satisfied waiter, or one whose channel is among `gone`, the receivers the
/// pass found gone.
pub open spec fn accounted<T>(entry: Entry<T>, data: T, open: bool, gone: Seq<Gone>) -> bool {
    open || waits_for(entry, data) || found_gone(gone, entry.chan())
}

/// The outcomes `open` explain what a pass carrying `data` left of `before`,
/// with `gone` the receivers that the pass found gone.
pub open spec fn pass_outcome<T>(
    before: Seq<Entry<T>>,
    data: T,
    open: Seq<bool>,
    gone: Seq<Gone>,
    after: Seq<Entry<T>>,
) -> bool {
    &&& open.len() == before.len()
    &&& after == retained(before, data, open)
    &&& forall|i: int| 0 <= i < before.len() ==> accounted(#[trigger] before[i], data, open[i], gone)
}

/// What a notification pass carrying `data` may leave of `before`: the
/// identities go on; every stream was handed `data` once and stays unless
/// the pass found its receiver gone; every waiter for `data` was completed
/// through its channel, in order, and left; a waiter for another value stays
/// as it was unless the pass found its receiver gone. What the pass found
/// gone is recorded in `gone()`.
pub open spec fn passed<T: Clone + PartialEq>(before: Subscribers<T>, data: T, after: Subscribers<T>) -> bool {
    &&& after.next_id() == before.next_id()
    &&& ids_ascending(after.entries(), after.next_id())
    &&& after.completions().len() >= before.completions().len()
    &&& after.completions().take(before.completions().len() as int) == before.completions()
    &&& lawful_value::<T>() ==> completes(
        satisfied(before.entries(), data),
        after.completions().skip(before.completions().len() as int),
    )
    &&& after.gone().len() >= before.gone().len()
    &&& after.gone().take(before.gone().len() as int) == before.gone()
    &&& lawful_value::<T>() ==> exists|open: Seq<bool>|
        #[trigger] pass_outcome(
            before.entries(),
            data,
            open,
            after.gone().skip(before.gone().len() as int),
            after.entries(),
        )
}

/// A subscriber of either kind, as the storage holds it.
#[verifier::reject_recursive_types(T)]
pub enum UniversalSubscriber<T> {
    /// A one-shot waiter, completed when the value becomes `target`.
    When { sender: WaiterSender, target: T },
    /// A stream that receives every change.
    All(StreamSender<T>),
}

impl<T> UniversalSubscriber<T> {
    pub open spec fn describes(&self, entry: Entry<T>) -> bool {
        match (*self, entry) {
            (UniversalSubscriber::When { sender, target }, Entry::Once { chan, target: t, .. }) => t
                == target && sender.chan() == chan,
            (UniversalSubscriber::All(s), Entry::Stream { chan, sent, .. }) => s.chan() == chan
                && s.sent() == sent,
            _ => false,
        }
    }
}

/// Subscriber storage that takes both streams and one-shot waiters, kept in
/// registration order.
#[verifier::reject_recursive_types(T)]
pub struct Subscribers<T> {
    subs: Vec<UniversalSubscriber<T>>,
    entries: Ghost<Seq<Entry<T>>>,
    completions: Ghost<Seq<Completion>>,
    gone: Ghost<Seq<Gone>>,
    next_id: Ghost<nat>,
}

impl<T> Subscribers<T> {
    /// The registered subscribers, oldest first.
    pub closed spec fn entries(&self) -> Seq<Entry<T>> {
        self.entries@
    }

    /// Every waiter that the passes so far completed, in order.
    pub closed spec fn completions(&self) -> Seq<Completion> {
        self.completions@
    }

    /// Every receiver that the passes so far found gone, in order.
    pub closed spec fn gone(&self) -> Seq<Gone> {
        self.gone@
    }

    /// The identity that the next registration receives.
    pub closed spec fn next_id(&self) -> nat {
        self.next_id@
    }

    #[verifier::type_invariant]
    closed spec fn inv(self) -> bool {
        &&& self.subs@.len() == self.entries@.len()
        &&& forall|i: int|
            0 <= i < self.subs@.len() ==> #[trigger] self.subs@[i].describes(self.entries@[i])
        &&& ids_ascending(self.entries@, self.next_id@)
    }

    /// Makes an empty storage.
    pub fn new() -> (s: Self)
        ensures
            s.entries() == Seq::<Entry<T>>::empty(),
            s.completions() == Seq::<Completion>::empty(),
            s.gone() == Seq::<Gone>::empty(),
            s.next_id() == 0,
    {
        Subscribers {
            subs: Vec::new(),
            entries: Ghost(Seq::empty()),
            completions: Ghost(Seq::empty()),
            gone: Ghost(Seq::empty()),
            next_id: Ghost(0),
        }
    }

    /// The number of registered subscribers; identities rise along them.
    pub fn len(&self) -> (n: usize)
        ensures
            n == self.entries().len(),
            ids_ascending(self.entries(), self.next_id()),
    {
        proof {
            use_type_invariant(self);
        }
        self.subs.len()
    }

    /// Appends `sub`, described by `entry`, under the next identity.
    fn register(&mut self, sub: UniversalSubscriber<T>, entry: Ghost<Entry<T>>)
        requires
            sub.describes(entry@),
            entry@.id() == old(self).next_id(),
        ensures
            registered(*old(self), entry@, *final(self)),
    {
        let mut taken = Subscribers::new();
        std::mem::swap(self, &mut taken);
        proof {
            use_type_invariant(&taken);
        }
        let Subscribers { mut subs, entries, completions, gone, next_id } = taken;
        subs.push(sub);
        let ghost grown = entries@.push(entry@);
        assert forall|i: int| 0 <= i < subs@.len() implies #[trigger] subs@[i].describes(
            grown[i],
        ) by {
            if i < entries@.len() {
                assert(subs@[i] == taken.subs@[i]);
            }
        }
        *self = Subscribers {
            subs,
            entries: Ghost(grown),
            completions,
            gone,
            next_id: Ghost(next_id@ + 1),
        };
    }

    /// One notification pass: hands `data` to every stream and completes every
    /// one-shot waiter whose target equals `data`, in registration order. A
    /// completed waiter leaves the storage, and so does a stream whose
    /// receiver has gone (the delivery to it fails) and a waiter whose
    /// receiver was dropped; all else stays, in order.
    pub fn notify(&mut self, data: &T)
        where
            T: Clone + PartialEq,
        ensures
            passed(*old(self), *data, *final(self)),
    {
        let mut taken = Subscribers::new();
        std::mem::swap(self, &mut taken);
        proof {
            use_type_invariant(&taken);
        }
        let Subscribers { subs, entries, completions, gone, next_id } = taken;
        let ghost old_subs = subs@;
        let ghost old_entries = entries@;
        let ghost mut kept_entries: Seq<Entry<T>> = Seq::empty();
        let ghost mut done: Seq<Completion> = Seq::empty();
        let ghost mut lost: Seq<Gone> = Seq::empty();
        let ghost mut open: Seq<bool> = Seq::empty();
        let mut kept: Vec<UniversalSubscriber<T>> = Vec::new();
        let mut idx: usize = 0;
        assert(old_subs.len() == subs.len());
        for sub in it: subs.into_iter()
            invariant
                idx == it.index(),
                idx <= old_subs.len() <= usize::MAX,
                it.seq() == old_subs,
                old_subs.len() == old_entries.len(),
                forall|i: int|
                    0 <= i < old_subs.len() ==> #[trigger] old_subs[i].describes(old_entries[i]),
                ids_ascending(old_entries, next_id@),
                open.len() == idx,
                kept@.len() == kept_entries.len(),
                forall|i: int|
                    0 <= i < kept@.len() ==> #[trigger] kept@[i].describes(kept_entries[i]),
                ids_ascending(kept_entries, next_id@),
                forall|i: int|
                    0 <= i < kept_entries.len() && idx < old_entries.len() ==> #[trigger] kept_entries[i].id()
                        < old_entries[idx as int].id(),
                forall|i: int| 0 <= i < idx ==> accounted(#[trigger] old_entries[i], *data, open[i], lost),
                lawful_value::<T>() ==> kept_entries == retained(
                    old_entries.take(idx as int),
                    *data,
                    open,
                ),
                lawful_value::<T>() ==> completes(satisfied(old_entries.take(idx as int), *data), done),
        {
            let ghost entry = old_entries[idx as int];
            let ghost open_before = open;
            let ghost done_before = done;
            let ghost lost_before = lost;
            let ghost prefix = old_entries.take(idx as int);
            let ghost next_prefix = old_entries.take(idx + 1);
            assert(next_prefix.drop_last() =~= prefix);
            assert(next_prefix.last() == entry);
            assert(old_subs[idx as int].describes(entry));
            match sub {
                UniversalSubscriber::All(mut sender) => {
                    let value = data.clone();
                    assert(lawful_value::<T>() ==> value == *data) by {
                        if lawful_value::<T>() {
                            assert(strictly_cloned(*data, value));
                        }
                    }
                    let sent = sender.send(value);
                    match sent {
                        Ok(()) => {
                            kept.push(UniversalSubscriber::All(sender));
                            proof {
                                assert(after_pass(entry, value).id() == entry.id());
                                kept_entries = kept_entries.push(after_pass(entry, value));
                                open = open.push(true);
                            }
                        },
                        Err(token) => {
                            proof {
                                lost = lost.push(token);
                                assert(lost[lost.len() - 1].chan() == entry.chan());
                                open = open.push(false);
                            }
                        },
                    }
                },
                UniversalSubscriber::When { sender, target } => {
                    if target == *data {
                        let token = sender.complete();
                        proof {
                            done = done.push(Completion { id: entry.id(), token });
                            open = open.push(true);
                        }
                    } else {
                        match sender.check_canceled() {
                            Some(token) => {
                                proof {
                                    lost = lost.push(token);
                                    assert(lost[lost.len() - 1].chan() == entry.chan());
                                    open = open.push(false);
                                }
                            },
                            None => {
                                kept.push(UniversalSubscriber::When { sender, target });
                                proof {
                                    kept_entries = kept_entries.push(entry);
                                    open = open.push(true);
                                }
                            },
                        }
                    }
                },
            }
            proof {
                assert(open.drop_last() =~= open_before);
                assert forall|i: int| 0 <= i < idx + 1 implies accounted(
                    #[trigger] old_entries[i],
                    *data,
                    open[i],
                    lost,
                ) by {
                    if i < idx {
                        assert(open[i] == open_before[i]);
                        if found_gone(lost_before, old_entries[i].chan()) {
                            let k = choose|k: int|
                                0 <= k < lost_before.len() && #[trigger] lost_before[k].chan()
                                    == old_entries[i].chan();
                            assert(lost[k] == lost_before[k]);
                        }
                    } else if !open[i] && !waits_for(entry, *data) {
                        assert(lost[lost.len() - 1].chan() == entry.chan());
                    }
                }
                if lawful_value::<T>() {
                    assert(retained(next_prefix, *data, open) == (if keeps(entry, *data, open.last()) {
                        retained(prefix, *data, open_before).push(after_pass(entry, *data))
                    } else {
                        retained(prefix, *data, open_before)
                    }));
                    assert(kept_entries == retained(next_prefix, *data, open));
                    let sat = satisfied(prefix, *data);
                    assert(satisfied(next_prefix, *data) == (if entry is Once && entry->target
                        == *data {
                        sat.push(entry)
                    } else {
                        sat
                    }));
                    assert forall|k: int| 0 <= k < done.len() implies #[trigger] done[k].id
                        == satisfied(next_prefix, *data)[k].id() && done[k].token.chan()
                        == satisfied(next_prefix, *data)[k].chan() by {
                        if k < done_before.len() {
                            assert(done[k] == done_before[k]);
                        }
                    }
                }
            }
            idx = idx + 1;
        }
        assert(idx == old_entries.len());
        assert(old_entries.take(old_entries.len() as int) =~= old_entries);
        let ghost all_done = completions@ + done;
        let ghost all_gone = gone@ + lost;
        *self = Subscribers {
            subs: kept,
            entries: Ghost(kept_entries),
            completions: Ghost(all_done),
            gone: Ghost(all_gone),
            next_id,
        };
        proof {
            use_type_invariant(&*self);
            assert(all_done.take(completions@.len() as int) =~= completions@);
            assert(all_done.skip(completions@.len() as int) =~= done);
            assert(all_gone.take(gone@.len() as int) =~= gone@);
            assert(all_gone.skip(gone@.len() as int) =~= lost);
            assert(gone@ == old(self).gone());
            assert(old_entries == old(self).entries());
            assert(completions@ == old(self).completions());
            assert(self.completions() == all_done);
            assert(self.next_id() == old(self).next_id());
            if lawful_value::<T>() {
                assert(pass_outcome(old_entries, *data, open, lost, kept_entries));
                assert(completes(satisfied(old_entries, *data), done));
                assert(pass_outcome(
                    old(self).entries(),
                    *data,
                    open,
                    self.gone().skip(old(self).gone().len() as int),
                    self.entries(),
                ));
            }
        }
    }

    /// Registers a stream of every later change.
    pub fn subscribe_all(&mut self) -> (rx: StreamReceiver<T>)
        ensures
            registered(
                *old(self),
                Entry::Stream { id: old(self).next_id(), chan: rx.chan(), sent: Seq::empty() },
                *final(self),
            ),
    {
        let (tx, rx) = stream_channel();
        let ghost entry = Entry::Stream { id: self.next_id@, chan: rx.chan(), sent: Seq::empty() };
        self.register(UniversalSubscriber::All(tx), Ghost(entry));
        rx
    }

    /// Registers a one-shot waiter for the value `target`.
    pub fn subscribe_when(&mut self, target: T) -> (rx: Waiter)
        ensures
            registered(
                *old(self),
                Entry::Once { id: old(self).next_id(), chan: rx.chan(), target },
                *final(self),
            ),
    {
        let (tx, rx) = waiter_channel();
        let ghost entry = Entry::Once { id: self.next_id@, chan: rx.chan(), target };
        self.register(UniversalSubscriber::When { sender: tx, target }, Ghost(entry));
        rx
    }
}

/// `after` is `before` with `entry` registered under the next identity.
pub open spec fn registered<T>(before: Subscribers<T>, entry: Entry<T>, after: Subscribers<T>) -> bool {
    &&& entry.id() == before.next_id()
    &&& after.entries() == before.entries().push(entry)
    &&& after.completions() == before.completions()
    &&& after.gone() == before.gone()
    &&& after.next_id() == before.next_id() + 1
}

/// Storage that runs a notification pass when the field's value changes.
pub trait OnReactiveFieldModification<T>: Sized {
    /// Whether `after` is what a notification pass carrying `data` may leave
    /// of `self`.
    spec fn notified(self, data: T, after: Self) -> bool;

    /// Runs one notification pass carrying `data`: it sends the update to the
    /// streams and completes the one-shot waiters that it satisfies.
    fn on_modify(&mut self, data: &T)
        ensures
            (*old(self)).notified(*data, *final(self)),
    ;
}

/// Storage that hands out streams of every later change.
pub trait Subscribable<T>: Sized {
    /// Whether `after` is `self` with one more stream registered, whose
    /// receiving end is `rx`.
    spec fn subscribed(self, after: Self, rx: StreamReceiver<T>) -> bool;

    /// Registers a stream and returns its receiving end.
    fn subscribe(&mut self) -> (rx: StreamReceiver<T>)
        ensures
            (*old(self)).subscribed(*final(self), rx),
    ;
}

/// Storage that hands out one-shot waiters for a value.
pub trait SubscribableOnce<T>: Sized {
    /// Whether `after` is `self` with one more waiter for `target`
    /// registered, whose receiving end is `rx`.
    spec fn awaits(self, target: T, after: Self, rx: Waiter) -> bool;

    /// Registers a waiter for `target` and returns the future it completes.
    fn subscribe_once(&mut self, target: T) -> (rx: Waiter)
        ensures
            (*old(self)).awaits(target, *final(self), rx),
    ;
}

impl<T: Clone + PartialEq> OnReactiveFieldModification<T> for Subscribers<T> {
    open spec fn notified(self, data: T, after: Self) -> bool {
        passed(self, data, after)
    }

    fn on_modify(&mut self, data: &T) {
        self.notify(data);
    }
}

impl<T> Subscribable<T> for Subscribers<T> {
    open spec fn subscribed(self, after: Self, rx: StreamReceiver<T>) -> bool {
        registered(
            self,
            Entry::Stream { id: self.next_id(), chan: rx.chan(), sent: Seq::empty() },
            after,
        )
    }

    fn subscribe(&mut self) -> (rx: StreamReceiver<T>) {
        self.subscribe_all()
    }
}

impl<T> SubscribableOnce<T> for Subscribers<T> {
    open spec fn awaits(self, target: T, after: Self, rx: Waiter) -> bool {
        registered(self, Entry::Once { id: self.next_id(), chan: rx.chan(), target }, after)
    }

    fn subscribe_once(&mut self, target: T) -> (rx: Waiter) {
        self.subscribe_when(target)
    }
}

/// Storage that takes streams only.
#[verifier::reject_recursive_types(T)]
pub struct StreamSubscribers<T> {
    inner: Subscribers<T>,
}

impl<T> StreamSubscribers<T> {
    /// The subscribers held, as a storage of both kinds.
    pub closed spec fn storage(&self) -> Subscribers<T> {
        self.inner
    }

    /// Makes an empty storage.
    pub fn new() -> (s: Self)
        ensures
            s.storage().entries() == Seq::<Entry<T>>::empty(),
            s.storage().completions() == Seq::<Completion>::empty(),
            s.storage().gone() == Seq::<Gone>::empty(),
            s.storage().next_id() == 0,
    {
        StreamSubscribers { inner: Subscribers::new() }
    }

    /// The number of registered streams; identities rise along them.
    pub fn len(&self) -> (n: usize)
        ensures
            n == self.storage().entries().len(),
            ids_ascending(self.storage().entries(), self.storage().next_id()),
    {
        self.inner.len()
    }
}

impl<T: Clone + PartialEq> OnReactiveFieldModification<T> for StreamSubscribers<T> {
    open spec fn notified(self, data: T, after: Self) -> bool {
        passed(self.storage(), data, after.storage())
    }

    fn on_modify(&mut self, data: &T) {
        self.inner.notify(data);
    }
}

impl<T> Subscribable<T> for StreamSubscribers<T> {
    open spec fn subscribed(self, after: Self, rx: StreamReceiver<T>) -> bool {
        registered(
            self.storage(),
            Entry::Stream { id: self.storage().next_id(), chan: rx.chan(), sent: Seq::empty() },
            after.storage(),
        )
    }

    fn subscribe(&mut self) -> (rx: StreamReceiver<T>) {
        self.inner.subscribe_all()
    }
}

/// Storage that takes one-shot waiters only.
#[verifier::reject_recursive_types(T)]
pub struct OnceSubscribers<T> {
    inner: Subscribers<T>,
}

impl<T> OnceSubscribers<T> {
    /// The subscribers held, as a storage of both kinds.
    pub closed spec fn storage(&self) -> Subscribers<T> {
        self.inner
    }

    /// Makes an empty storage.
    pub fn new() -> (s: Self)
        ensures
            s.storage().entries() == Seq::<Entry<T>>::empty(),
            s.storage().completions() == Seq::<Completion>::empty(),
            s.storage().gone() == Seq::<Gone>::empty(),
            s.storage().next_id() == 0,
    {
        OnceSubscribers { inner: Subscribers::new() }
    }

    /// The number of pending waiters; identities rise along them.
    pub fn len(&self) -> (n: usize)
        ensures
            n == self.storage().entries().len(),
            ids_ascending(self.storage().entries(), self.storage().next_id()),
    {
        self.inner.len()
    }
}

impl<T: Clone + PartialEq> OnReactiveFieldModification<T> for OnceSubscribers<T> {
    open spec fn notified(self, data: T, after: Self) -> bool {
        passed(self.storage(), data, after.storage())
    }

    fn on_modify(&mut self, data: &T) {
        self.inner.notify(data);
    }
}

impl<T> SubscribableOnce<T> for OnceSubscribers<T> {
    open spec fn awaits(self, target: T, after: Self, rx: Waiter) -> bool {
        registered(
            self.storage(),
            Entry::Once { id: self.storage().next_id(), chan: rx.chan(), target },
            after.storage(),
        )
    }

    fn subscribe_once(&mut self, target: T) -> (rx: Waiter) {
        self.inner.subscribe_when(target)
    }
}

} // verus!
