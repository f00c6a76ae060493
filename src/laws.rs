//! Laws of the reactive field, proved from the contracts of the guard and of
//! the notification pass.
use crate::channels::Gone;
use crate::field::released;
use crate::subscribers::{
    accounted, after_pass, found_gone, ids_ascending, waits_for, keeps, lawful_value, pass_outcome, passed, retained, satisfied,
    Completion, Entry, OnReactiveFieldModification, Subscribers,
};
use vstd::prelude::*;

verus! {

/// The receivers that the pass from `before` to `after` found gone.
pub open spec fn lost_by<T>(before: Subscribers<T>, after: Subscribers<T>) -> Seq<Gone> {
    after.gone().skip(before.gone().len() as int)
}

/// The waiters that the pass from `before` to `after` completed, in order.
pub open spec fn completed_by<T>(before: Subscribers<T>, after: Subscribers<T>) -> Seq<Completion> {
    after.completions().skip(before.completions().len() as int)
}

/// Every entry a pass keeps is one it was given, as the pass leaves it; and
/// every entry it was given and keeps is there.
proof fn lemma_retained_members<T>(entries: Seq<Entry<T>>, data: T, open: Seq<bool>)
    requires
        open.len() == entries.len(),
    ensures
        forall|j: int|
            0 <= j < retained(entries, data, open).len() ==> exists|k: int|
                0 <= k < entries.len() && keeps(entries[k], data, open[k])
                    && #[trigger] retained(entries, data, open)[j] == after_pass(entries[k], data),
        forall|k: int|
            0 <= k < entries.len() && #[trigger] keeps(entries[k], data, open[k]) ==> retained(
                entries,
                data,
                open,
            ).contains(after_pass(entries[k], data)),
        retained(entries, data, open).len() <= entries.len(),
    decreases entries.len(),
{
    if entries.len() > 0 {
        let init = entries.drop_last();
        let oi = open.drop_last();
        let n = entries.len() - 1;
        lemma_retained_members(init, data, oi);
        let r = retained(entries, data, open);
        let ri = retained(init, data, oi);
        assert forall|j: int| 0 <= j < r.len() implies exists|k: int|
            0 <= k < entries.len() && keeps(entries[k], data, open[k]) && #[trigger] r[j]
                == after_pass(entries[k], data) by {
            if j < ri.len() {
                assert(r[j] == ri[j]);
                let k = choose|k: int|
                    0 <= k < init.len() && keeps(init[k], data, oi[k]) && ri[j] == after_pass(
                        init[k],
                        data,
                    );
                assert(entries[k] == init[k] && open[k] == oi[k]);
            } else {
                assert(r[j] == after_pass(entries[n], data));
            }
        }
        assert forall|k: int|
            0 <= k < entries.len() && #[trigger] keeps(entries[k], data, open[k]) implies r.contains(
            after_pass(entries[k], data),
        ) by {
            if k < n {
                assert(entries[k] == init[k] && open[k] == oi[k]);
                let m = choose|m: int| 0 <= m < ri.len() && ri[m] == after_pass(init[k], data);
                assert(r[m] == ri[m]);
            } else {
                assert(r[r.len() - 1] == after_pass(entries[k], data));
            }
        }
    }
}

/// The waiters a pass satisfies are waiters it was given whose target is the
/// value, all of them, with identities still rising.
proof fn lemma_satisfied_members<T>(entries: Seq<Entry<T>>, data: T, next: nat)
    requires
        ids_ascending(entries, next),
    ensures
        forall|j: int|
            0 <= j < satisfied(entries, data).len() ==> exists|k: int|
                0 <= k < entries.len() && #[trigger] satisfied(entries, data)[j] == entries[k]
                    && waits_for(entries[k], data),
        forall|k: int|
            0 <= k < entries.len() && #[trigger] waits_for(entries[k], data) ==> satisfied(entries, data).contains(entries[k]),
        ids_ascending(satisfied(entries, data), next),
    decreases entries.len(),
{
    if entries.len() > 0 {
        let init = entries.drop_last();
        let n = entries.len() - 1;
        assert(ids_ascending(init, next)) by {
            assert forall|i: int, j: int| 0 <= i < j < init.len() implies #[trigger] init[i].id()
                < #[trigger] init[j].id() by {
                assert(init[i] == entries[i] && init[j] == entries[j]);
            }
            assert forall|i: int| 0 <= i < init.len() implies #[trigger] init[i].id() < next by {
                assert(init[i] == entries[i]);
            }
        }
        lemma_satisfied_members(init, data, next);
        let s = satisfied(entries, data);
        let si = satisfied(init, data);
        assert forall|j: int| 0 <= j < s.len() implies exists|k: int|
            0 <= k < entries.len() && #[trigger] s[j] == entries[k] && waits_for(entries[k], data) by {
            if j < si.len() {
                assert(s[j] == si[j]);
                let k = choose|k: int|
                    0 <= k < init.len() && si[j] == init[k] && waits_for(init[k], data);
                assert(entries[k] == init[k]);
            } else {
                assert(s[j] == entries[n]);
            }
        }
        assert forall|k: int|
            0 <= k < entries.len() && #[trigger] waits_for(entries[k], data) implies s.contains(entries[k]) by {
            if k < n {
                assert(entries[k] == init[k]);
                let m = choose|m: int| 0 <= m < si.len() && si[m] == init[k];
                assert(s[m] == si[m]);
            } else {
                assert(s[s.len() - 1] == entries[k]);
            }
        }
        assert forall|i: int, j: int| 0 <= i < j < s.len() implies #[trigger] s[i].id()
            < #[trigger] s[j].id() by {
            if j < si.len() {
                assert(s[i] == si[i] && s[j] == si[j]);
            } else {
                assert(s[i] == si[i]);
                let k = choose|k: int| 0 <= k < init.len() && si[i] == init[k] && waits_for(init[k], data);
                assert(entries[k] == init[k]);
                assert(entries[k].id() < entries[n].id());
            }
        }
        assert forall|i: int| 0 <= i < s.len() implies #[trigger] s[i].id() < next by {
            let k = choose|k: int|
                0 <= k < entries.len() && s[i] == entries[k] && waits_for(entries[k], data);
        }
    }
}

/// Writing back the value that a field held when its guard was made notifies
/// nobody: releasing the guard leaves the subscribers exactly as they were,
/// so no stream is handed anything and no waiter is completed.
pub proof fn lemma_unchanged_value_notifies_nobody<T, S: OnReactiveFieldModification<T>>(
    snapshot: T,
    value: T,
    before: S,
    after: S,
)
    requires
        value == snapshot,
        released(snapshot, value, before, after),
    ensures
        after == before,
{
}

/// A pass hands every stream it was given the value it carries, once: the
/// stream stays with exactly that value added to what its channel was
/// handed, unless the pass found its receiver gone.
pub proof fn lemma_pass_reaches_every_stream<T: Clone + PartialEq>(
    before: Subscribers<T>,
    data: T,
    after: Subscribers<T>,
    i: int,
)
    requires
        lawful_value::<T>(),
        ids_ascending(before.entries(), before.next_id()),
        passed(before, data, after),
        0 <= i < before.entries().len(),
        before.entries()[i] is Stream,
    ensures
        after.entries().contains(after_pass(before.entries()[i], data)) || found_gone(lost_by(before, after), before.entries()[i].chan()),
        forall|j: int|
            0 <= j < after.entries().len() && #[trigger] after.entries()[j].id()
                == before.entries()[i].id() ==> after.entries()[j] == after_pass(
                before.entries()[i],
                data,
            ),
{
    let es = before.entries();
    let open = choose|open: Seq<bool>| #[trigger] pass_outcome(es, data, open, lost_by(before, after), after.entries());
    lemma_retained_members(es, data, open);
    assert(keeps(es[i], data, open[i]) || found_gone(lost_by(before, after), es[i].chan()));
    assert forall|j: int|
        0 <= j < after.entries().len() && #[trigger] after.entries()[j].id() == es[i].id()
        implies after.entries()[j] == after_pass(es[i], data) by {
        let k = choose|k: int|
            0 <= k < es.len() && keeps(es[k], data, open[k]) && after.entries()[j] == after_pass(
                es[k],
                data,
            );
        assert(after_pass(es[k], data).id() == es[k].id());
        if k < i {
            assert(es[k].id() < es[i].id());
        } else if k > i {
            assert(es[i].id() < es[k].id());
        }
    }
}

/// Releasing a guard whose value differs from its snapshot hands every stream
/// registered before it the new value, once, as
/// [`lemma_pass_reaches_every_stream`] says of a pass.
pub proof fn lemma_change_reaches_every_stream<T: Clone + PartialEq>(
    snapshot: T,
    value: T,
    before: Subscribers<T>,
    after: Subscribers<T>,
    i: int,
)
    requires
        lawful_value::<T>(),
        ids_ascending(before.entries(), before.next_id()),
        value != snapshot,
        released(snapshot, value, before, after),
        0 <= i < before.entries().len(),
        before.entries()[i] is Stream,
    ensures
        after.entries().contains(after_pass(before.entries()[i], value)) || found_gone(lost_by(before, after), before.entries()[i].chan()),
        forall|j: int|
            0 <= j < after.entries().len() && #[trigger] after.entries()[j].id()
                == before.entries()[i].id() ==> after.entries()[j] == after_pass(
                before.entries()[i],
                value,
            ),
{
    lemma_pass_reaches_every_stream(before, value, after, i);
}

/// `storage` holds a subscriber with identity `id`.
pub open spec fn holds_id<T>(storage: Subscribers<T>, id: nat) -> bool {
    exists|j: int| 0 <= j < storage.entries().len() && #[trigger] storage.entries()[j].id() == id
}

/// A stream that stays registered through a run of passes is handed their
/// values in the order the passes ran: nothing is left out, repeated or
/// reordered, and nothing from before its registration is replayed.
#[verifier::spinoff_prover]
#[verifier::rlimit(60)]
pub proof fn lemma_stream_sees_changes_in_order<T: Clone + PartialEq>(
    states: Seq<Subscribers<T>>,
    values: Seq<T>,
    id: nat,
    chan: int,
    sent: Seq<T>,
)
    requires
        lawful_value::<T>(),
        states.len() == values.len() + 1,
        forall|k: int|
            0 <= k < values.len() ==> ids_ascending(
                #[trigger] states[k].entries(),
                states[k].next_id(),
            ) && passed(states[k], values[k], states[k + 1]),
        states[0].entries().contains(Entry::Stream { id, chan, sent }),
        forall|k: int| 0 <= k < states.len() ==> #[trigger] holds_id(states[k], id),
    ensures
        states.last().entries().contains(Entry::Stream { id, chan, sent: sent + values }),
    decreases values.len(),
{
    if values.len() == 0 {
        assert(sent + values =~= sent);
    } else {
        let n = values.len() - 1;
        let init = states.drop_last();
        let vinit = values.drop_last();
        assert forall|k: int| 0 <= k < vinit.len() implies ids_ascending(
            #[trigger] init[k].entries(),
            init[k].next_id(),
        ) && passed(init[k], vinit[k], init[k + 1]) by {
            assert(init[k] == states[k] && init[k + 1] == states[k + 1] && vinit[k] == values[k]);
        }
        assert forall|k: int| 0 <= k < init.len() implies #[trigger] holds_id(init[k], id) by {
            assert(init[k] == states[k]);
        }
        lemma_stream_sees_changes_in_order(init, vinit, id, chan, sent);
        let before = states[n];
        let after = states[n + 1];
        assert(init.last() == before);
        let e = Entry::Stream { id, chan, sent: sent + vinit };
        let i = choose|i: int| 0 <= i < before.entries().len() && before.entries()[i] == e;
        assert(ids_ascending(before.entries(), before.next_id()) && passed(before, values[n], after));
        lemma_pass_reaches_every_stream(before, values[n], after, i);
        assert(holds_id(states[n + 1], id));
        let j = choose|j: int| 0 <= j < after.entries().len() && after.entries()[j].id() == id;
        assert(after.entries()[j] == after_pass(e, values[n]));
        assert(sent + vinit.push(values[n]) =~= (sent + vinit).push(values[n]));
        assert(vinit.push(values[n]) =~= values);
        assert(states.last() == after);
    }
}

/// A one-shot waiter for another value than a pass carries stays registered,
/// as it was, unless the pass found its receiver gone; and the pass does not
/// complete it.
pub proof fn lemma_waiter_stays_for_other_values<T: Clone + PartialEq>(
    before: Subscribers<T>,
    data: T,
    after: Subscribers<T>,
    i: int,
)
    requires
        lawful_value::<T>(),
        ids_ascending(before.entries(), before.next_id()),
        passed(before, data, after),
        0 <= i < before.entries().len(),
        before.entries()[i] is Once,
        !waits_for(before.entries()[i], data),
    ensures
        after.entries().contains(before.entries()[i]) || found_gone(
            lost_by(before, after),
            before.entries()[i].chan(),
        ),
        forall|k: int|
            0 <= k < completed_by(before, after).len() ==> #[trigger] completed_by(
                before,
                after,
            )[k].id != before.entries()[i].id(),
{
    let es = before.entries();
    let open = choose|open: Seq<bool>|
        #[trigger] pass_outcome(es, data, open, lost_by(before, after), after.entries());
    lemma_retained_members(es, data, open);
    assert(after_pass(es[i], data) == es[i]);
    if !found_gone(lost_by(before, after), es[i].chan()) {
        assert(accounted(es[i], data, open[i], lost_by(before, after)));
        assert(open[i]);
        assert(keeps(es[i], data, open[i]));
    }
    assert forall|j: int|
        0 <= j < es.len() && #[trigger] es[j].id() == es[i].id() implies !waits_for(es[j], data) by {
        if j < i {
            assert(es[j].id() < es[i].id());
        } else if j > i {
            assert(es[i].id() < es[j].id());
        }
    }
    lemma_only_matching_waiters_resolve(before, data, after, es[i].id());
}

/// A one-shot waiter stays registered, as it was, through a run of passes
/// that carry other values than its target, as long as none of them finds
/// its receiver gone.
#[verifier::spinoff_prover]
#[verifier::rlimit(60)]
pub proof fn lemma_waiter_waits_through_passes<T: Clone + PartialEq>(
    states: Seq<Subscribers<T>>,
    values: Seq<T>,
    waiter: Entry<T>,
)
    requires
        lawful_value::<T>(),
        states.len() == values.len() + 1,
        waiter is Once,
        forall|k: int|
            0 <= k < values.len() ==> ids_ascending(
                #[trigger] states[k].entries(),
                states[k].next_id(),
            ) && passed(states[k], values[k], states[k + 1]) && !waits_for(waiter, values[k])
                && !found_gone(lost_by(states[k], states[k + 1]), waiter.chan()),
        states[0].entries().contains(waiter),
    ensures
        states.last().entries().contains(waiter),
    decreases values.len(),
{
    if values.len() > 0 {
        let n = values.len() - 1;
        let init = states.drop_last();
        let vinit = values.drop_last();
        assert forall|k: int| 0 <= k < vinit.len() implies ids_ascending(
            #[trigger] init[k].entries(),
            init[k].next_id(),
        ) && passed(init[k], vinit[k], init[k + 1]) && !waits_for(waiter, vinit[k])
            && !found_gone(lost_by(init[k], init[k + 1]), waiter.chan()) by {
            assert(init[k] == states[k] && init[k + 1] == states[k + 1] && vinit[k] == values[k]);
        }
        lemma_waiter_waits_through_passes(init, vinit, waiter);
        assert(init.last() == states[n]);
        let before = states[n];
        let after = states[n + 1];
        assert(ids_ascending(before.entries(), before.next_id()) && passed(before, values[n], after)
            && !waits_for(waiter, values[n]) && !found_gone(lost_by(before, after), waiter.chan()));
        let i = choose|i: int| 0 <= i < before.entries().len() && before.entries()[i] == waiter;
        lemma_waiter_stays_for_other_values(before, values[n], after, i);
        assert(states.last() == after);
    }
}

/// A one-shot waiter is completed through its channel by the first pass that
/// carries its target, exactly once, and leaves the storage in that pass; its
/// identity is never handed out again.
pub proof fn lemma_waiter_resolves_on_target<T: Clone + PartialEq>(
    before: Subscribers<T>,
    data: T,
    after: Subscribers<T>,
    i: int,
)
    requires
        lawful_value::<T>(),
        ids_ascending(before.entries(), before.next_id()),
        passed(before, data, after),
        0 <= i < before.entries().len(),
        waits_for(before.entries()[i], data),
    ensures
        exists|k: int|
            0 <= k < completed_by(before, after).len() && #[trigger] completed_by(before, after)[k].id
                == before.entries()[i].id() && completed_by(before, after)[k].token.chan()
                == before.entries()[i].chan(),
        forall|k1: int, k2: int|
            0 <= k1 < completed_by(before, after).len() && 0 <= k2 < completed_by(
                before,
                after,
            ).len() && #[trigger] completed_by(before, after)[k1].id == before.entries()[i].id()
                && #[trigger] completed_by(before, after)[k2].id == before.entries()[i].id() ==> k1
                == k2,
        forall|j: int|
            0 <= j < after.entries().len() ==> #[trigger] after.entries()[j].id()
                != before.entries()[i].id(),
        before.entries()[i].id() < after.next_id(),
{
    let es = before.entries();
    let done = completed_by(before, after);
    lemma_satisfied_members(es, data, before.next_id());
    let sat = satisfied(es, data);
    assert(sat.contains(es[i]));
    let m = choose|m: int| 0 <= m < sat.len() && sat[m] == es[i];
    assert(done[m].id == sat[m].id());
    assert forall|k1: int, k2: int|
        0 <= k1 < done.len() && 0 <= k2 < done.len() && #[trigger] done[k1].id == es[i].id()
            && #[trigger] done[k2].id == es[i].id() implies k1 == k2 by {
        assert(done[k1].id == sat[k1].id() && done[k2].id == sat[k2].id());
        if k1 < k2 {
            assert(sat[k1].id() < sat[k2].id());
        } else if k2 < k1 {
            assert(sat[k2].id() < sat[k1].id());
        }
    }
    let open = choose|open: Seq<bool>| #[trigger] pass_outcome(es, data, open, lost_by(before, after), after.entries());
    lemma_retained_members(es, data, open);
    assert forall|j: int| 0 <= j < after.entries().len() implies #[trigger] after.entries()[j].id()
        != es[i].id() by {
        let k = choose|k: int|
            0 <= k < es.len() && keeps(es[k], data, open[k]) && after.entries()[j] == after_pass(
                es[k],
                data,
            );
        assert(after_pass(es[k], data).id() == es[k].id());
        if k < i {
            assert(es[k].id() < es[i].id());
        } else if k > i {
            assert(es[i].id() < es[k].id());
        }
    }
}

/// All one-shot waiters for the value that a pass carries are completed by
/// that one pass.
pub proof fn lemma_all_waiters_for_value_resolve<T: Clone + PartialEq>(
    before: Subscribers<T>,
    data: T,
    after: Subscribers<T>,
)
    requires
        lawful_value::<T>(),
        ids_ascending(before.entries(), before.next_id()),
        passed(before, data, after),
    ensures
        forall|i: int|
            0 <= i < before.entries().len() && #[trigger] waits_for(before.entries()[i], data) ==> exists|k: int|
                0 <= k < completed_by(before, after).len() && #[trigger] completed_by(
                    before,
                    after,
                )[k].id == before.entries()[i].id() && completed_by(before, after)[k].token.chan()
                    == before.entries()[i].chan(),
{
    assert forall|i: int|
        0 <= i < before.entries().len() && #[trigger] waits_for(before.entries()[i], data) implies exists|k: int|
        0 <= k < completed_by(before, after).len() && #[trigger] completed_by(before, after)[k].id
            == before.entries()[i].id() && completed_by(before, after)[k].token.chan()
            == before.entries()[i].chan() by {
        lemma_waiter_resolves_on_target(before, data, after, i);
    }
}

/// A pass completes only waiters it holds whose target is the value it
/// carries: a waiter for another value, or one that an earlier pass completed
/// and removed, is not completed.
pub proof fn lemma_only_matching_waiters_resolve<T: Clone + PartialEq>(
    before: Subscribers<T>,
    data: T,
    after: Subscribers<T>,
    id: nat,
)
    requires
        lawful_value::<T>(),
        ids_ascending(before.entries(), before.next_id()),
        passed(before, data, after),
        forall|i: int|
            0 <= i < before.entries().len() && #[trigger] before.entries()[i].id() == id
                ==> !waits_for(before.entries()[i], data),
    ensures
        forall|k: int|
            0 <= k < completed_by(before, after).len() ==> #[trigger] completed_by(
                before,
                after,
            )[k].id != id,
{
    let es = before.entries();
    let done = completed_by(before, after);
    lemma_satisfied_members(es, data, before.next_id());
    let sat = satisfied(es, data);
    assert forall|k: int| 0 <= k < done.len() implies #[trigger] done[k].id != id by {
        assert(done[k].id == sat[k].id());
        let m = choose|m: int|
            0 <= m < es.len() && sat[k] == es[m] && waits_for(es[m], data);
        assert(es[m].id() == sat[k].id());
    }
}

/// A pass only removes subscribers, and whatever it keeps was registered
/// before it: a stream whose receiver went away costs the pass nothing but
/// its own removal.
pub proof fn lemma_pass_only_prunes<T: Clone + PartialEq>(
    before: Subscribers<T>,
    data: T,
    after: Subscribers<T>,
)
    requires
        lawful_value::<T>(),
        passed(before, data, after),
    ensures
        after.entries().len() <= before.entries().len(),
        forall|j: int|
            0 <= j < after.entries().len() ==> exists|k: int|
                0 <= k < before.entries().len() && #[trigger] after.entries()[j] == after_pass(
                    before.entries()[k],
                    data,
                ),
{
    let open = choose|open: Seq<bool>|
        #[trigger] pass_outcome(before.entries(), data, open, lost_by(before, after), after.entries());
    lemma_retained_members(before.entries(), data, open);
}

} // verus!
