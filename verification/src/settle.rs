//! The quiet period that has to pass before the prompt will accept an answer.
//!
//! Settling is a quiet period, not a fixed window from mapping: a fast typist mid-sentence would
//! otherwise hit Enter well inside a second, and a DPMS-blanked output would let a fixed window
//! elapse with nothing on screen. Times are milliseconds on one monotonic clock.

use vstd::prelude::*;

verus! {

/// Quiet period the prompt needs before it will accept an answer, in milliseconds.
pub const SETTLE: u64 = 400;

/// Time from the last non-input restart after which we give up and deny, in milliseconds.
pub const SETTLE_CAP: u64 = 5000;

#[derive(Clone, Copy, Debug, PartialEq, Eq)]
pub enum SettleState {
    /// Nothing presented yet, or the quiet period is still running.
    Waiting,
    /// Controls live; the prompt now waits indefinitely for an answer.
    Settled,
    /// Input kept arriving past the cap. Fail closed: deny.
    CapExceeded,
}

#[derive(Clone, Copy, Debug)]
pub struct Settle {
    duration: u64,
    cap: u64,
    quiet_start: Option<u64>,
    attempt_start: Option<u64>,
    settled: bool,
}

/// What a [`Settle`] holds.
pub ghost struct SettleView {
    /// The quiet period, in milliseconds.
    pub duration: u64,
    /// The cap on settling, in milliseconds.
    pub cap: u64,
    /// Start of the current quiet period. `None` until the first surface is presented.
    pub quiet_start: Option<u64>,
    /// Start of the current settling attempt. Only a non-input restart moves this.
    pub attempt_start: Option<u64>,
    pub settled: bool,
}

impl View for Settle {
    type V = SettleView;

    closed spec fn view(&self) -> SettleView {
        SettleView {
            duration: self.duration,
            cap: self.cap,
            quiet_start: self.quiet_start,
            attempt_start: self.attempt_start,
            settled: self.settled,
        }
    }
}

/// Milliseconds from `earlier` to `now`, or zero if `now` is not after it.
pub open spec fn elapsed(now: u64, earlier: u64) -> int {
    if now >= earlier { now - earlier } else { 0 }
}

impl SettleView {
    /// Nothing presented yet.
    pub open spec fn fresh(duration: u64, cap: u64) -> SettleView {
        SettleView { duration, cap, quiet_start: None, attempt_start: None, settled: false }
    }

    /// The state after a non-input restart at `now`.
    pub open spec fn restarted(self, now: u64) -> SettleView {
        SettleView { quiet_start: Some(now), attempt_start: Some(now), settled: false, ..self }
    }

    /// The state after input at `now`.
    pub open spec fn after_input(self, now: u64) -> SettleView {
        if self.settled || self.quiet_start is None {
            self
        } else {
            SettleView { quiet_start: Some(now), ..self }
        }
    }

    /// The state after a poll at `now`.
    pub open spec fn polled(self, now: u64) -> SettleView {
        SettleView { settled: Self::spec_poll(self, now) == SettleState::Settled, ..self }
    }

    /// What `poll` reports for a state at a time.
    pub open spec fn spec_poll(s: SettleView, now: u64) -> SettleState {
        if s.settled {
            SettleState::Settled
        } else if s.quiet_start is None || s.attempt_start is None {
            SettleState::Waiting
        } else if elapsed(now, s.quiet_start->0) >= s.duration {
            SettleState::Settled
        } else if elapsed(now, s.attempt_start->0) >= s.cap {
            SettleState::CapExceeded
        } else {
            SettleState::Waiting
        }
    }
}

impl Settle {
    pub fn new(duration: u64, cap: u64) -> (s: Self)
        ensures
            s@ == SettleView::fresh(duration, cap),
    {
        Settle { duration, cap, quiet_start: None, attempt_start: None, settled: false }
    }

    /// A surface presented for the first time, or keyboard focus came back. Restarts both the
    /// quiet period and the cap, and un-settles an already live prompt.
    pub fn restart(&mut self, now: u64)
        ensures
            final(self)@ == old(self)@.restarted(now),
    {
        self.quiet_start = Some(now);
        self.attempt_start = Some(now);
        self.settled = false;
    }

    /// A key press, key release or pointer button. Restarts the quiet period but not the cap.
    /// Once settled, input is the answer rather than a disturbance.
    pub fn input(&mut self, now: u64)
        ensures
            final(self)@ == old(self)@.after_input(now),
    {
        if self.settled || self.quiet_start.is_none() {
            return;
        }
        self.quiet_start = Some(now);
    }

    pub fn poll(&mut self, now: u64) -> (r: SettleState)
        ensures
            r == SettleView::spec_poll(old(self)@, now),
            final(self)@ == old(self)@.polled(now),
    {
        if self.settled {
            return SettleState::Settled;
        }
        let (quiet, attempt) = match (self.quiet_start, self.attempt_start) {
            (Some(q), Some(a)) => (q, a),
            _ => return SettleState::Waiting,
        };
        let since_quiet: u64 = if now >= quiet { now - quiet } else { 0 };
        if since_quiet >= self.duration {
            self.settled = true;
            return SettleState::Settled;
        }
        let since_attempt: u64 = if now >= attempt { now - attempt } else { 0 };
        if since_attempt >= self.cap {
            return SettleState::CapExceeded;
        }
        SettleState::Waiting
    }

    pub fn is_settled(&self) -> (r: bool)
        ensures
            r == self@.settled,
    {
        self.settled
    }

    /// Start of the current quiet period, `None` until the first surface is presented.
    pub fn quiet_start(&self) -> (r: Option<u64>)
        ensures
            r == self@.quiet_start,
    {
        self.quiet_start
    }
}

/// The state after input at each of `times`, in order.
pub open spec fn after_inputs(s: SettleView, times: Seq<u64>) -> SettleView
    decreases times.len(),
{
    if times.len() == 0 {
        s
    } else {
        after_inputs(s, times.drop_last()).after_input(times.last())
    }
}

proof fn lemma_inputs_keep(s: SettleView, times: Seq<u64>)
    ensures
        after_inputs(s, times).duration == s.duration,
        after_inputs(s, times).cap == s.cap,
        after_inputs(s, times).attempt_start == s.attempt_start,
        after_inputs(s, times).settled == s.settled,
        after_inputs(s, times).quiet_start is Some <==> s.quiet_start is Some,
        s.settled ==> after_inputs(s, times) == s,
    decreases times.len(),
{
    if times.len() > 0 {
        lemma_inputs_keep(s, times.drop_last());
    }
}

/// Input cannot hold the prompt off forever: however much of it arrives after a surface was
/// presented, once the cap has passed since the last non-input restart a poll either finds a quiet
/// period behind it (settled) or denies. It is never still waiting.
pub proof fn input_cannot_outlast_the_cap(s: SettleView, times: Seq<u64>, now: u64)
    requires
        s.quiet_start is Some,
        s.attempt_start is Some,
        elapsed(now, s.attempt_start->0) >= s.cap,
    ensures
        SettleView::spec_poll(after_inputs(s, times), now) != SettleState::Waiting,
{
    lemma_inputs_keep(s, times);
}

/// Before any surface was presented, nothing settles, whatever input arrives.
pub proof fn nothing_settles_unseen(s: SettleView, times: Seq<u64>, now: u64)
    requires
        s.quiet_start is None,
        !s.settled,
    ensures
        after_inputs(s, times).quiet_start is None,
        SettleView::spec_poll(after_inputs(s, times), now) == SettleState::Waiting,
{
    lemma_inputs_keep(s, times);
}

/// Once settled, input is the answer rather than a disturbance: the prompt stays settled through
/// input and polls until a non-input restart.
pub proof fn settled_stays_settled(s: SettleView, times: Seq<u64>, now: u64)
    requires
        s.settled,
    ensures
        after_inputs(s, times) == s,
        SettleView::spec_poll(s, now) == SettleState::Settled,
        s.polled(now) == s,
{
    lemma_inputs_keep(s, times);
}

/// The controls go live only after a full quiet period since the last input or restart.
pub proof fn live_only_after_quiet(s: SettleView, now: u64)
    requires
        !s.settled,
        SettleView::spec_poll(s, now) == SettleState::Settled,
    ensures
        s.quiet_start is Some,
        elapsed(now, s.quiet_start->0) >= s.duration,
{
}

/// A call on a [`Settle`], with the time it is made at.
pub ghost enum SettleCall {
    Restart(u64),
    Input(u64),
    Poll(u64),
}

/// The state after one call.
pub open spec fn after_call(s: SettleView, c: SettleCall) -> SettleView {
    match c {
        SettleCall::Restart(t) => s.restarted(t),
        SettleCall::Input(t) => s.after_input(t),
        SettleCall::Poll(t) => s.polled(t),
    }
}

/// The state after each of `calls`, in order.
pub open spec fn after_calls(s: SettleView, calls: Seq<SettleCall>) -> SettleView
    decreases calls.len(),
{
    if calls.len() == 0 {
        s
    } else {
        after_call(after_calls(s, calls.drop_last()), calls.last())
    }
}

/// Whether the call at `i` is a poll that returned Settled, with no restart after it.
pub open spec fn settled_poll_stands(s: SettleView, calls: Seq<SettleCall>, i: int) -> bool {
    &&& 0 <= i < calls.len()
    &&& calls[i] matches SettleCall::Poll(t) && SettleView::spec_poll(after_calls(s, calls.take(i)), t)
        == SettleState::Settled
    &&& forall|j: int| i < j < calls.len() ==> !(calls[j] is Restart)
}

/// The prompt is settled exactly when some poll since the latest restart returned Settled: never
/// from a fresh state or right after a restart, and input never changes it.
pub proof fn settled_exactly_after_a_settled_poll(s: SettleView, calls: Seq<SettleCall>)
    requires
        !s.settled,
    ensures
        after_calls(s, calls).settled <==> exists|i: int| settled_poll_stands(s, calls, i),
    decreases calls.len(),
{
    if calls.len() > 0 {
        let pre = calls.drop_last();
        let n = calls.len() - 1;
        settled_exactly_after_a_settled_poll(s, pre);
        let r = after_calls(s, pre);
        assert(calls.take(n) =~= pre);
        // A stand in the prefix carries over unless the last call is a restart, and the other way.
        assert forall|i: int| 0 <= i < n implies settled_poll_stands(s, calls, i) == (
            settled_poll_stands(s, pre, i) && !(calls[n] is Restart)) by {
            assert(calls.take(i) =~= pre.take(i));
            assert(calls[i] == pre[i]);
            assert forall|j: int| i < j < n implies calls[j] == pre[j] by {}
        }
        match calls[n] {
            SettleCall::Restart(t) => {
                if exists|i: int| settled_poll_stands(s, calls, i) {
                    let i = choose|i: int| settled_poll_stands(s, calls, i);
                    assert(i != n);
                }
            },
            SettleCall::Input(t) => {
                if exists|i: int| settled_poll_stands(s, calls, i) {
                    let i = choose|i: int| settled_poll_stands(s, calls, i);
                    assert(i != n);
                    assert(settled_poll_stands(s, pre, i));
                }
                if exists|i: int| settled_poll_stands(s, pre, i) {
                    let i = choose|i: int| settled_poll_stands(s, pre, i);
                    assert(settled_poll_stands(s, calls, i));
                }
            },
            SettleCall::Poll(t) => {
                if SettleView::spec_poll(r, t) == SettleState::Settled {
                    assert(settled_poll_stands(s, calls, n));
                } else {
                    if exists|i: int| settled_poll_stands(s, calls, i) {
                        let i = choose|i: int| settled_poll_stands(s, calls, i);
                        if i < n {
                            assert(settled_poll_stands(s, pre, i));
                        }
                    }
                }
            },
        }
    }
}

} // verus!
