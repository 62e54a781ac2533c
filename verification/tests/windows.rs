use qtx::windows::CloseSignal;

#[test]
fn pending_until_closed_then_ready() {
    let mut c = CloseSignal::new();
    assert!(!c.poll());
    assert!(c.on_close());
    assert!(c.poll());
    assert!(c.poll());
}

#[test]
fn close_without_waiter_wakes_nobody() {
    let mut c = CloseSignal::new();
    assert!(!c.on_close());
    assert!(c.poll());
}
