//! When the main window counts as finished: the window is awaited until the user closes it,
//! and closing it wakes whoever awaits it.
use vstd::prelude::*;

verus! {

/// Whether the window was closed and whether a task waits for that, as plain values.
pub struct CloseView {
    pub closed: bool,
    pub waiting: bool,
}

/// The state after the window was polled: a window not yet closed keeps the poller's waker.
pub open spec fn after_poll(v: CloseView) -> CloseView {
    if v.closed {
        v
    } else {
        CloseView { closed: false, waiting: true }
    }
}

/// The state after the user closed the window: it is closed and the kept waker, if any, is
/// used up.
pub open spec fn after_close(v: CloseView) -> CloseView {
    CloseView { closed: true, waiting: false }
}

/// What the main window records of its closing.
pub struct CloseSignal {
    closed: bool,
    waiting: bool,
}

impl View for CloseSignal {
    type V = CloseView;

    closed spec fn view(&self) -> CloseView {
        CloseView { closed: self.closed, waiting: self.waiting }
    }
}

impl CloseSignal {
    /// A window that is open and that nobody awaits.
    pub fn new() -> (r: CloseSignal)
        ensures
            r@ == (CloseView { closed: false, waiting: false }),
    {
        CloseSignal { closed: false, waiting: false }
    }

    /// Polls the window: ready when it was closed; otherwise the poller's waker is to be kept
    /// (replacing any earlier one) and the poll is pending.
    pub fn poll(&mut self) -> (ready: bool)
        ensures
            ready == old(self)@.closed,
            final(self)@.closed == old(self)@.closed,
            !old(self)@.closed ==> final(self)@.waiting,
            final(self)@ == after_poll(old(self)@),
    {
        if self.closed {
            true
        } else {
            self.waiting = true;
            false
        }
    }

    /// The user closed the window: returns whether a kept waker is to be woken.
    pub fn on_close(&mut self) -> (wake: bool)
        ensures
            wake == old(self)@.waiting,
            final(self)@ == after_close(old(self)@),
    {
        self.closed = true;
        let wake = self.waiting;
        self.waiting = false;
        wake
    }
}

/// A poll that found the window open is woken when the window closes, and the poll after
/// that is ready.
pub proof fn lemma_close_wakes_pending_poll(v: CloseView)
    requires
        !v.closed,
    ensures
        after_poll(v).waiting,
        after_poll(after_close(after_poll(v))).closed,
{
}

/// Polling never closes the window: a window that was open is still open after any number
/// of polls, so every poll before the user closes it is pending; only [CloseSignal::on_close]
/// closes it.
pub proof fn lemma_poll_keeps_open(v: CloseView)
    ensures
        after_poll(v).closed == v.closed,
        !v.closed ==> !after_poll(after_poll(v)).closed,
        !v.closed ==> after_poll(v).waiting,
        after_close(v).closed,
{
}

/// Once the window was closed, every later poll is ready and nothing waits.
pub proof fn lemma_closed_stays_closed(v: CloseView)
    ensures
        after_close(v).closed,
        after_poll(after_close(v)) == after_close(v),
        !after_poll(after_close(v)).waiting,
{
}

} // verus!
