use qtx::executor::{Executor, PollOutcome};

#[test]
fn spawn_hands_out_fresh_identifiers_from_one() {
    let mut e: Executor<&str> = Executor::new();
    assert!(e.can_spawn());
    assert_eq!(e.spawn("a"), 1);
    assert_eq!(e.spawn("b"), 2);
    assert_eq!(e.spawn("c"), 3);
}

#[test]
fn take_gives_back_the_task() {
    let mut e: Executor<&str> = Executor::new();
    let a = e.spawn("a");
    let b = e.spawn("b");
    assert_eq!(e.take(b), Some("b"));
    assert_eq!(e.take(a), Some("a"));
}

#[test]
fn finished_task_with_unused_waker_frees_its_identifier() {
    let mut e: Executor<&str> = Executor::new();
    e.spawn("a");
    let b = e.spawn("b");
    e.spawn("c");
    let t = e.take(b).unwrap();
    assert_eq!(t, "b");
    e.finish_poll(b, PollOutcome::Ready { waker: b });
    assert_eq!(e.spawn("d"), b);
    assert_eq!(e.spawn("e"), 4);
}

#[test]
fn finished_task_with_used_waker_keeps_identifier_until_late_poll() {
    let mut e: Executor<&str> = Executor::new();
    let a = e.spawn("a");
    e.take(a).unwrap();
    e.finish_poll(a, PollOutcome::Ready { waker: 0 });
    assert_eq!(e.spawn("b"), 2);
    // The poll scheduled by the used waker finds no task and frees the identifier.
    assert_eq!(e.take(a), None);
    assert_eq!(e.spawn("c"), a);
}

#[test]
fn pending_task_goes_back() {
    let mut e: Executor<&str> = Executor::new();
    let a = e.spawn("a");
    let t = e.take(a).unwrap();
    e.finish_poll(a, PollOutcome::Pending(t));
    assert_eq!(e.take(a), Some("a"));
}

#[test]
fn reused_identifiers_come_last_freed_first() {
    let mut e: Executor<u32> = Executor::new();
    for i in 0..4 {
        e.spawn(i);
    }
    e.take(1).unwrap();
    e.finish_poll(1, PollOutcome::Ready { waker: 1 });
    e.take(3).unwrap();
    e.finish_poll(3, PollOutcome::Ready { waker: 3 });
    assert_eq!(e.spawn(10), 3);
    assert_eq!(e.spawn(11), 1);
    assert_eq!(e.spawn(12), 5);
}

#[test]
fn cannot_spawn_over_a_live_task() {
    let mut e: Executor<u32> = Executor::new();
    e.spawn(0);
    // A poll for an identifier never handed out frees it although it is the next fresh one.
    assert_eq!(e.take(2), None);
    assert_eq!(e.spawn(1), 2);
    assert!(!e.can_spawn());
}
