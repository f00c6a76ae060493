use futures::channel::mpsc::UnboundedReceiver;
use futures::channel::oneshot;
use mute_unmute_poc::field::{
    CustomReactiveField, DefaultReactiveField, Dropped, OnceAndManyReactiveField, OnceReactiveField, ReactiveField,
};
use mute_unmute_poc::subscribers::{StreamSubscribers, Subscribers};

fn set<T: Clone + PartialEq>(field: &mut OnceAndManyReactiveField<T>, value: T) {
    let guard = field.borrow_mut();
    *guard.data = value;
    guard.release();
}

fn drain(rx: &mut UnboundedReceiver<i32>) -> Vec<i32> {
    let mut seen = Vec::new();
    while let Ok(v) = rx.try_recv() {
        seen.push(v);
    }
    seen
}

fn resolved(rx: &mut oneshot::Receiver<()>) -> bool {
    matches!(rx.try_recv(), Ok(Some(())))
}

#[test]
fn stream_sees_each_increment() {
    let mut field = OnceAndManyReactiveField::new(1i32);
    let mut rx = field.subscribe().into_inner();
    for _ in 0..3 {
        let guard = field.borrow_mut();
        *guard.data += 1;
        guard.release();
    }
    assert_eq!(drain(&mut rx), vec![2, 3, 4]);
    assert_eq!(*field.read(), 4);
}

#[test]
fn when_eq_waits_for_a_real_change() {
    let mut field = OnceAndManyReactiveField::new(false);
    let mut fut = field.when_eq(true).into_inner();
    set(&mut field, false);
    assert!(matches!(fut.try_recv(), Ok(None)));
    set(&mut field, true);
    assert!(resolved(&mut fut));
}

#[test]
fn rewriting_the_same_value_notifies_nobody() {
    let mut field = OnceAndManyReactiveField::new(7i32);
    let mut rx = field.subscribe().into_inner();
    let mut waiter = field.when_eq(7).into_inner();
    set(&mut field, 7);
    let guard = field.borrow_mut();
    guard.release();
    assert!(drain(&mut rx).is_empty());
    assert!(matches!(waiter.try_recv(), Ok(None)));
    assert_eq!(field.storage().len(), 2);
}

#[test]
fn a_change_reaches_every_stream_once() {
    let mut field = OnceAndManyReactiveField::new(0i32);
    let mut a = field.subscribe().into_inner();
    let mut b = field.subscribe().into_inner();
    set(&mut field, 5);
    set(&mut field, 6);
    assert_eq!(drain(&mut a), vec![5, 6]);
    assert_eq!(drain(&mut b), vec![5, 6]);
}

#[test]
fn late_stream_gets_no_replay() {
    let mut field = OnceAndManyReactiveField::new(0i32);
    set(&mut field, 1);
    let mut rx = field.subscribe().into_inner();
    assert!(drain(&mut rx).is_empty());
    set(&mut field, 2);
    assert_eq!(drain(&mut rx), vec![2]);
}

#[test]
fn waiter_resolves_once_and_leaves() {
    let mut field = OnceAndManyReactiveField::new(0i32);
    let mut fut = field.when_eq(5).into_inner();
    set(&mut field, 3);
    assert!(matches!(fut.try_recv(), Ok(None)));
    assert_eq!(field.storage().len(), 1);
    set(&mut field, 5);
    assert!(resolved(&mut fut));
    assert_eq!(field.storage().len(), 0);
    set(&mut field, 6);
    set(&mut field, 5);
    assert_eq!(field.storage().len(), 0);
}

#[test]
fn many_waiters_resolve_together() {
    let mut field = OnceAndManyReactiveField::new(0i32);
    let mut futs: Vec<oneshot::Receiver<()>> = (0..4).map(|_| field.when_eq(2).into_inner()).collect();
    let mut other = field.when_eq(9).into_inner();
    set(&mut field, 2);
    for fut in futs.iter_mut() {
        assert!(resolved(fut));
    }
    assert!(matches!(other.try_recv(), Ok(None)));
    assert_eq!(field.storage().len(), 1);
}

#[test]
fn dropped_stream_is_pruned_silently() {
    let mut field = OnceAndManyReactiveField::new(0i32);
    let gone = field.subscribe().into_inner();
    let mut kept = field.subscribe().into_inner();
    drop(gone);
    assert_eq!(field.storage().len(), 2);
    set(&mut field, 1);
    assert_eq!(field.storage().len(), 1);
    assert_eq!(drain(&mut kept), vec![1]);
}

#[test]
fn dropping_the_field_cancels_waiters() {
    let mut field = OnceAndManyReactiveField::new(0i32);
    let mut fut = field.when_eq(1).into_inner();
    drop(field);
    let err = fut.try_recv().map_err(Dropped::from);
    assert!(matches!(err, Err(Dropped)));
}

#[test]
fn stream_only_field() {
    let mut field = DefaultReactiveField::new(10i32);
    let mut rx = field.subscribe().into_inner();
    let guard = field.borrow_mut();
    *guard.data = 11;
    guard.release();
    assert_eq!(drain(&mut rx), vec![11]);
    assert_eq!(*field, 11);
    assert_eq!(field.storage().len(), 1);
}

#[test]
fn once_only_field() {
    let mut field = OnceReactiveField::new(1u8);
    let mut fut = field.when_eq(2).into_inner();
    let guard = field.borrow_mut();
    *guard.data = 2;
    guard.release();
    assert!(resolved(&mut fut));
    assert_eq!(field.storage().len(), 0);
}

#[test]
fn custom_storage_field() {
    let mut field: ReactiveField<i32, StreamSubscribers<i32>, i32> =
        ReactiveField::new_with_custom(3, StreamSubscribers::new());
    let mut rx = field.subscribe().into_inner();
    let guard = field.borrow_mut();
    *guard.data = 4;
    guard.release();
    assert_eq!(drain(&mut rx), vec![4]);
}

#[test]
fn storage_runs_a_pass_directly() {
    let mut subs: Subscribers<i32> = Subscribers::new();
    let mut rx = subs.subscribe_all().into_inner();
    let mut fut = subs.subscribe_when(8).into_inner();
    subs.notify(&8);
    assert_eq!(drain(&mut rx), vec![8]);
    assert!(resolved(&mut fut));
    assert_eq!(subs.len(), 1);
}

#[test]
fn cancelled_waiter_is_pruned_at_next_pass() {
    let mut field = OnceAndManyReactiveField::new(0i32);
    let gone = field.when_eq(1).into_inner();
    let mut kept = field.when_eq(1).into_inner();
    drop(gone);
    assert_eq!(field.storage().len(), 2);
    set(&mut field, 2);
    assert_eq!(field.storage().len(), 1);
    assert!(matches!(kept.try_recv(), Ok(None)));
    set(&mut field, 1);
    assert!(resolved(&mut kept));
    assert_eq!(field.storage().len(), 0);
}

#[test]
fn custom_field_alias() {
    let mut field: CustomReactiveField<i32, i32> =
        ReactiveField::new_with_custom(0, StreamSubscribers::new());
    let mut rx = field.subscribe().into_inner();
    let guard = field.borrow_mut();
    *guard.data = 9;
    guard.release();
    assert_eq!(drain(&mut rx), vec![9]);
}
