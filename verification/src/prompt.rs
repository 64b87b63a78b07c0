//! The prompt's decisions: surface modes, verdicts, and the input state machine of one phase.
//!
//! A run is a sequence of phases. A full phase holds the session lock and the dialog surfaces; a
//! chip phase holds only the minimized corner chip. Each phase records exactly one outcome and
//! then is over for good, so a callback that runs after the outcome was taken out cannot revive it.
//! The toolkit, the surfaces and the clock live with the caller, which hands each event to the
//! phase and carries out what it answers.

use vstd::prelude::*;
use vstd::slice::slice_to_vec;
use vstd::string::*;
use vstd::utf8::encode_utf8;

use crate::bytes::{ascii, ascii_of, bytes_eq};
use crate::settle::{Settle, SettleState, SettleView};

use crate::untrusted::{escape_view, Escaped, Untrusted, MAX_TOKEN_CHARS};

verus! {

#[derive(Clone, Copy, Debug, PartialEq, Eq, Structural)]
pub enum SurfaceMode {
    /// Session lock, then layer shell, then an xdg toplevel.
    Auto,
    SessionLock,
    Layer,
    Toplevel,
}

/// The surface mode a command-line word names.
pub open spec fn spec_surface_mode(word: Seq<u8>) -> Option<SurfaceMode> {
    if word == ascii_of("auto"@) {
        Some(SurfaceMode::Auto)
    } else if word == ascii_of("session-lock"@) {
        Some(SurfaceMode::SessionLock)
    } else if word == ascii_of("layer"@) {
        Some(SurfaceMode::Layer)
    } else if word == ascii_of("toplevel"@) {
        Some(SurfaceMode::Toplevel)
    } else {
        None
    }
}

impl SurfaceMode {
    pub fn parse(s: &str) -> (m: Option<SurfaceMode>)
        ensures
            m == spec_surface_mode(s.spec_bytes()),
    {
        proof {
            reveal_strlit("auto");
            reveal_strlit("session-lock");
            reveal_strlit("layer");
            reveal_strlit("toplevel");
        }
        let b = s.as_bytes();
        if bytes_eq(b, ascii("auto").as_slice()) {
            Some(SurfaceMode::Auto)
        } else if bytes_eq(b, ascii("session-lock").as_slice()) {
            Some(SurfaceMode::SessionLock)
        } else if bytes_eq(b, ascii("layer").as_slice()) {
            Some(SurfaceMode::Layer)
        } else if bytes_eq(b, ascii("toplevel").as_slice()) {
            Some(SurfaceMode::Toplevel)
        } else {
            None
        }
    }
}

#[derive(Debug)]
pub enum Verdict {
    Approved,
    Denied,
    /// Input kept arriving past the settle cap. Fails closed.
    DeniedSettleCap,
    DeniedSignal(i32),
    /// Something the prompt depends on was not true. The message names the failed check.
    Error(String),
}

/// Did a human answer, as opposed to a cap, a signal or an error deciding?
pub open spec fn answered(v: Verdict) -> bool {
    v is Approved || v is Denied
}

/// What the run came back with: the verdict, and whatever the human typed in the response box.
#[derive(Debug)]
pub struct Answer {
    pub verdict: Verdict,
    /// Only ever set when a human approved or denied: a settle cap, a signal or
    /// an error was not a human answering, and a half-typed sentence printed under one of those
    /// would be attributed to a decision nobody made.
    pub response: Option<String>,
}

/// The response an answer carries: the box's text when a human answered and typed something.
pub open spec fn spec_response(verdict: Verdict, typed: Option<Seq<char>>) -> Option<Seq<char>> {
    match typed {
        Some(t) => if answered(verdict) && t.len() > 0 {
            Some(t)
        } else {
            None
        },
        None => None,
    }
}

pub open spec fn opt_str(o: Option<String>) -> Option<Seq<char>> {
    match o {
        Some(s) => Some(s@),
        None => None,
    }
}

impl Answer {
    /// An outcome with nothing typed, or one the response does not belong to.
    pub fn bare(verdict: Verdict) -> (a: Answer)
        ensures
            a.verdict == verdict,
            a.response is None,
    {
        Answer { verdict, response: None }
    }

    /// The run's answer from its verdict and the response box, if the dialog had one. "Empty"
    /// means literally empty: the text is the human's own sentence and is not trimmed.
    pub fn conclude(verdict: Verdict, typed: Option<String>) -> (a: Answer)
        ensures
            a.verdict == verdict,
            opt_str(a.response) == spec_response(verdict, opt_str(typed)),
    {
        let human = match &verdict {
            Verdict::Approved | Verdict::Denied => true,
            _ => false,
        };
        let response = match typed {
            Some(t) => if human && t.as_str().unicode_len() > 0 {
                Some(t)
            } else {
                None
            },
            None => None,
        };
        Answer { verdict, response }
    }
}

/// The line a response is reported on: escaped like any caller data, so one line in is one line
/// out whatever is in the box.
pub fn response_line(response: &String) -> (line: String)
    ensures
        line@ == "User response: "@ + escape_view(encode_utf8(response@), MAX_TOKEN_CHARS as int).0,
{
    let mut line = String::from_str("User response: ");
    let bytes = slice_to_vec(response.as_str().as_bytes());
    let e = Escaped::of(&Untrusted::from_bytes(bytes));
    line.append(e.as_str());
    line
}

/// Everything a run of the prompt is configured with. Times are milliseconds.
pub struct PromptConfig {
    pub spec: crate::dialog::DialogSpec,
    pub mode: SurfaceMode,
    pub settle: u64,
    pub cap: u64,
    /// True for sudo-prompt: a session lock that cannot be taken is a denial, never a downgrade to a
    /// weaker surface.
    pub lock_required: bool,
}

/// The keys the input state machine tells apart.
#[derive(Clone, Copy, Debug, PartialEq, Eq)]
pub enum Key {
    /// Return, KP_Enter or ISO_Enter: approve.
    Enter,
    /// Escape: deny.
    Escape,
    /// Ctrl+C or Ctrl+Insert: copy the selection from the focused label.
    Copy,
    /// Anything else.
    Other,
}

/// Keysyms the input state machine acts on.
pub const KEY_RETURN: u32 = 0xff0d;
pub const KEY_KP_ENTER: u32 = 0xff8d;
pub const KEY_ISO_ENTER: u32 = 0xfe34;
pub const KEY_ESCAPE: u32 = 0xff1b;
pub const KEY_LOWER_C: u32 = 0x0063;
pub const KEY_UPPER_C: u32 = 0x0043;
pub const KEY_INSERT: u32 = 0xff63;
pub const KEY_KP_INSERT: u32 = 0xff9e;

/// Which key a keysym is, with Control held or not. Copy is Ctrl+C or Ctrl+Insert; Ctrl+A is
/// deliberately not special, since a select-all the reader did not aim at hides which field they
/// are about to copy.
pub open spec fn spec_key(keysym: u32, control: bool) -> Key {
    if keysym == KEY_RETURN || keysym == KEY_KP_ENTER || keysym == KEY_ISO_ENTER {
        Key::Enter
    } else if keysym == KEY_ESCAPE {
        Key::Escape
    } else if control && (keysym == KEY_LOWER_C || keysym == KEY_UPPER_C || keysym == KEY_INSERT
        || keysym == KEY_KP_INSERT) {
        Key::Copy
    } else {
        Key::Other
    }
}

pub fn key_of(keysym: u32, control: bool) -> (k: Key)
    ensures
        k == spec_key(keysym, control),
{
    if keysym == KEY_RETURN || keysym == KEY_KP_ENTER || keysym == KEY_ISO_ENTER {
        Key::Enter
    } else if keysym == KEY_ESCAPE {
        Key::Escape
    } else if control && (keysym == KEY_LOWER_C || keysym == KEY_UPPER_C || keysym == KEY_INSERT
        || keysym == KEY_KP_INSERT) {
        Key::Copy
    } else {
        Key::Other
    }
}

/// Whether a key event goes on to the focused widget.
#[derive(Clone, Copy, Debug, PartialEq, Eq)]
pub enum Propagation {
    Stop,
    Proceed,
}

/// How a full phase ends.
#[derive(Debug)]
pub enum Outcome {
    Decided(Verdict),
    /// The human shrank the prompt to the chip: unlock, and wait in the corner.
    Minimize,
}

/// What the settle timer does after a tick.
#[derive(Clone, Copy, Debug, PartialEq, Eq)]
pub enum Tick {
    /// The phase is over; the timer goes away.
    Stop,
    /// Keep ticking, and push this settled state to the dialogs when there is one to push.
    Continue(Option<bool>),
}

/// What a failed session lock leads to.
#[derive(Clone, Copy, Debug, PartialEq, Eq)]
pub enum LockFailure {
    /// The failure was recorded as the phase's outcome, or there is nothing left to do.
    Settled,
    /// Fall back to a weaker surface, on the next idle.
    FallBack,
}

/// A full phase: one lock epoch with its own quiet period, held keys and surfaces.
pub struct Phase {
    settle: Settle,
    /// Last settle state pushed to the dialogs, so widgets are touched only on a change.
    shown_settled: Option<bool>,
    /// Hardware keycodes currently down, so a synthesized autorepeat is never a fresh press.
    held: Vec<u32>,
    outcome: Option<Outcome>,
    /// Set with the outcome and never cleared.
    over: bool,
    /// The compositor has confirmed the lock; nothing is presented before this.
    locked: bool,
    /// The run has committed to a fallback surface mode.
    fallback_done: bool,
}

/// A phase as contracts see it.
pub struct PhaseView {
    pub settle: SettleView,
    pub shown_settled: Option<bool>,
    pub held: Seq<u32>,
    pub outcome: Option<Outcome>,
    pub over: bool,
    pub locked: bool,
    pub fallback_done: bool,
}

impl View for Phase {
    type V = PhaseView;

    closed spec fn view(&self) -> PhaseView {
        PhaseView {
            settle: self.settle@,
            shown_settled: self.shown_settled,
            held: self.held@,
            outcome: self.outcome,
            over: self.over,
            locked: self.locked,
            fallback_done: self.fallback_done,
        }
    }
}

impl PhaseView {
    /// Held keys are a set, and an outcome is only ever recorded by ending the phase.
    pub open spec fn wf(self) -> bool {
        &&& self.held.no_duplicates()
        &&& (self.outcome is Some ==> self.over)
    }

    /// Recording an outcome: the first one wins, and the phase is over either way. Nothing else
    /// changes.
    pub open spec fn finished(self, new: PhaseView, o: Outcome) -> bool {
        &&& new.over
        &&& new.outcome == if self.over { self.outcome } else { Some(o) }
        &&& new.settle == self.settle
        &&& new.shown_settled == self.shown_settled
        &&& new.held == self.held
        &&& new.locked == self.locked
        &&& new.fallback_done == self.fallback_done
    }

    /// Recording an error naming `msg`, unless an outcome was recorded already.
    pub open spec fn failed(self, new: PhaseView, msg: Seq<char>) -> bool {
        &&& new.over
        &&& if self.over {
            new.outcome == self.outcome
        } else {
            new.outcome matches Some(Outcome::Decided(Verdict::Error(m))) && m@ == msg
        }
        &&& new.settle == self.settle
        &&& new.shown_settled == self.shown_settled
        &&& new.held == self.held
        &&& new.locked == self.locked
        &&& new.fallback_done == self.fallback_done
    }

    /// The same phase with a different quiet period and held keys.
    pub open spec fn only_input(self, new: PhaseView) -> bool {
        &&& new.outcome == self.outcome
        &&& new.over == self.over
        &&& new.shown_settled == self.shown_settled
        &&& new.locked == self.locked
        &&& new.fallback_done == self.fallback_done
    }

    /// `keycode` went down: it is held afterwards, and nothing else was added or dropped.
    pub open spec fn pressed(self, new: PhaseView, keycode: u32) -> bool {
        new.held == if self.held.contains(keycode) {
            self.held
        } else {
            self.held.push(keycode)
        }
    }

    /// `keycode` went up: it is no longer held, and every other key is as it was.
    pub open spec fn released(self, new: PhaseView, keycode: u32) -> bool {
        &&& !new.held.contains(keycode)
        &&& forall|k: u32| k != keycode ==> (#[trigger] new.held.contains(k) <==> self.held.contains(k))
    }
}

/// Where `k` is in `v`, if it is.
fn index_of(v: &Vec<u32>, k: u32) -> (r: Option<usize>)
    ensures
        match r {
            Some(i) => i < v@.len() && v@[i as int] == k,
            None => !v@.contains(k),
        },
{
    let mut i: usize = 0;
    while i < v.len()
        invariant
            i <= v@.len(),
            forall|j: int| 0 <= j < i ==> v@[j] != k,
        decreases v@.len() - i,
    {
        if v[i] == k {
            return Some(i);
        }
        i += 1;
    }
    None
}

/// The message a phase records when its last surface goes away.
pub open spec fn no_outputs_left() -> Seq<char> {
    "no outputs left to present the prompt on"@
}

/// The message a phase records when no output ever showed up.
pub open spec fn no_outputs() -> Seq<char> {
    "no outputs to present the prompt on"@
}

/// The message a phase records when the lock it requires cannot be taken.
pub open spec fn could_not_lock() -> Seq<char> {
    "could not take the session lock"@
}

impl Phase {
    #[verifier::type_invariant]
    spec fn inv(self) -> bool {
        self@.wf()
    }

    pub fn new(settle: u64, cap: u64) -> (p: Phase)
        ensures
            p@.wf(),
            p@.settle == SettleView::fresh(settle, cap),
            p@.shown_settled is None,
            p@.held.len() == 0,
            !p@.over,
            p@.outcome is None,
            !p@.locked,
            !p@.fallback_done,
    {
        Phase {
            settle: Settle::new(settle, cap),
            shown_settled: None,
            held: Vec::new(),
            outcome: None,
            over: false,
            locked: false,
            fallback_done: false,
        }
    }

    /// Still waiting for its outcome.
    pub fn live(&self) -> (r: bool)
        ensures
            r == !self@.over,
    {
        !self.over
    }

    /// Records the outcome and ends the phase, unless it already ended.
    pub fn finish(&mut self, o: Outcome)
        ensures
            final(self)@.wf(),
            old(self)@.finished(final(self)@, o),
    {
        proof {
            use_type_invariant(&*self);
        }
        if self.over {
            return;
        }
        self.over = true;
        self.outcome = Some(o);
    }

    /// The recorded outcome, taken out. The phase stays over.
    pub fn take_outcome(&mut self) -> (o: Option<Outcome>)
        ensures
            final(self)@.wf(),
            o == old(self)@.outcome,
            final(self)@ == (PhaseView { outcome: None, ..old(self)@ }),
    {
        proof {
            use_type_invariant(&*self);
        }
        let mut o: Option<Outcome> = None;
        std::mem::swap(&mut o, &mut self.outcome);
        o
    }

    /// Mark `keycode` as down. True if it already was: an autorepeat, not a fresh press.
    fn hold(&mut self, keycode: u32) -> (repeat: bool)
        ensures
            final(self)@.wf(),
            repeat == old(self)@.held.contains(keycode),
            old(self)@.pressed(final(self)@, keycode),
            final(self)@ == (PhaseView { held: final(self)@.held, ..old(self)@ }),
    {
        proof {
            use_type_invariant(&*self);
        }
        let mut held: Vec<u32> = Vec::new();
        std::mem::swap(&mut held, &mut self.held);
        let found = match index_of(&held, keycode) {
            Some(_) => true,
            None => false,
        };
        if !found {
            proof {
                let pushed = held@.push(keycode);
                assert forall|a: int, b: int| 0 <= a < b < pushed.len() implies pushed[a] != pushed[b] by {
                    if b == pushed.len() - 1 {
                        assert(pushed[a] == held@[a]);
                    } else {
                        assert(pushed[a] == held@[a] && pushed[b] == held@[b]);
                    }
                }
            }
            held.push(keycode);
        }
        self.held = held;
        found
    }

    /// Mark `keycode` as up.
    fn release(&mut self, keycode: u32)
        ensures
            final(self)@.wf(),
            old(self)@.released(final(self)@, keycode),
            final(self)@ == (PhaseView { held: final(self)@.held, ..old(self)@ }),
    {
        proof {
            use_type_invariant(&*self);
        }
        let mut held: Vec<u32> = Vec::new();
        std::mem::swap(&mut held, &mut self.held);
        let ghost before = held@;
        match index_of(&held, keycode) {
            Some(i) => {
                held.remove(i);
                proof {
                    assert(held@ =~= before.remove(i as int));
                    assert forall|k: u32| k != keycode implies (#[trigger] held@.contains(k) <==> before.contains(k)) by {
                        if before.contains(k) {
                            let j = choose|j: int| 0 <= j < before.len() && before[j] == k;
                            if j < i {
                                assert(held@[j] == k);
                            } else {
                                assert(j != i);
                                assert(held@[j - 1] == k);
                            }
                        }
                    }
                    assert forall|j: int| 0 <= j < held@.len() implies held@[j] != keycode by {
                        if j >= i {
                            assert(held@[j] == before[j + 1]);
                            assert(before[j + 1] != before[i as int]);
                        } else {
                            assert(held@[j] == before[j]);
                            assert(before[j] != before[i as int]);
                        }
                    }
                    assert forall|a: int, b: int| 0 <= a < b < held@.len() implies held@[a] != held@[b] by {
                        let a2 = if a < i { a } else { a + 1 };
                        let b2 = if b < i { b } else { b + 1 };
                        assert(held@[a] == before[a2]);
                        assert(held@[b] == before[b2]);
                    }
                }
            },
            None => {},
        }
        self.held = held;
    }

    /// A key went down. The key is tracked always, even before settling, so that its autorepeats
    /// are never mistaken for a fresh press afterwards. Enter and Escape keep their meaning
    /// wherever focus is and are stopped here; a fresh one answers once the prompt has settled.
    /// Copy goes through to the focused label. Anything else goes through only to the response
    /// entry, and a key delivered to the entry is typing, not a disturbance: it does not touch the
    /// quiet period.
    pub fn key_pressed(&mut self, keycode: u32, key: Key, in_entry: bool, now: u64) -> (p: Propagation)
        ensures
            final(self)@.wf(),
            old(self)@.pressed(final(self)@, keycode),
            final(self)@.settle == if in_entry && key != Key::Enter && key != Key::Escape {
                old(self)@.settle
            } else {
                old(self)@.settle.after_input(now)
            },
            final(self)@.shown_settled == old(self)@.shown_settled,
            final(self)@.locked == old(self)@.locked,
            final(self)@.fallback_done == old(self)@.fallback_done,
            ({
                let fresh = old(self)@.settle.settled && !old(self)@.held.contains(keycode);
                if key == Key::Enter && fresh {
                    final(self)@.over && final(self)@.outcome == if old(self)@.over {
                        old(self)@.outcome
                    } else {
                        Some(Outcome::Decided(Verdict::Approved))
                    }
                } else if key == Key::Escape && fresh {
                    final(self)@.over && final(self)@.outcome == if old(self)@.over {
                        old(self)@.outcome
                    } else {
                        Some(Outcome::Decided(Verdict::Denied))
                    }
                } else {
                    final(self)@.over == old(self)@.over && final(self)@.outcome == old(self)@.outcome
                }
            }),
            p == match key {
                Key::Enter | Key::Escape => Propagation::Stop,
                Key::Copy => Propagation::Proceed,
                Key::Other => if in_entry {
                    Propagation::Proceed
                } else {
                    Propagation::Stop
                },
            },
    {
        proof {
            use_type_invariant(&*self);
        }
        let repeat = self.hold(keycode);
        match key {
            Key::Enter | Key::Escape => {
                let mut s = self.settle;
                s.input(now);
                self.settle = s;
                if self.settle.is_settled() && !repeat {
                    match key {
                        Key::Enter => self.finish(Outcome::Decided(Verdict::Approved)),
                        _ => self.finish(Outcome::Decided(Verdict::Denied)),
                    }
                }
                Propagation::Stop
            },
            _ => {
                if !in_entry {
                    let mut s = self.settle;
                s.input(now);
                self.settle = s;
                }
                match key {
                    Key::Copy => Propagation::Proceed,
                    _ => if in_entry {
                        Propagation::Proceed
                    } else {
                        Propagation::Stop
                    },
                }
            },
        }
    }

    /// A key went up. Like a press, a release delivered to the response entry is typing and does
    /// not touch the quiet period; Enter and Escape count wherever focus is.
    pub fn key_released(&mut self, keycode: u32, key: Key, in_entry: bool, now: u64)
        ensures
            final(self)@.wf(),
            old(self)@.released(final(self)@, keycode),
            old(self)@.only_input(final(self)@),
            final(self)@.settle == if in_entry && key != Key::Enter && key != Key::Escape {
                old(self)@.settle
            } else {
                old(self)@.settle.after_input(now)
            },
    {
        proof {
            use_type_invariant(&*self);
        }
        self.release(keycode);
        let typing = in_entry && match key {
            Key::Enter | Key::Escape => false,
            _ => true,
        };
        if !typing {
            let mut s = self.settle;
                s.input(now);
                self.settle = s;
        }
    }

    /// A pointer button went down anywhere on the window. It is input either way. During settling
    /// a press is claimed, so no button ever sees it and none can activate on a release that lands
    /// after settling; a press on the response box or minimize is let through, since neither
    /// decides anything. Returns whether the press is claimed.
    pub fn pointer_pressed(&mut self, on_open_control: bool, now: u64) -> (claimed: bool)
        ensures
            final(self)@.wf(),
            old(self)@.only_input(final(self)@),
            final(self)@.held == old(self)@.held,
            final(self)@.settle == old(self)@.settle.after_input(now),
            claimed == (!old(self)@.settle.settled && !on_open_control),
    {
        proof {
            use_type_invariant(&*self);
        }
        let mut s = self.settle;
                s.input(now);
                self.settle = s;
        !self.settle.is_settled() && !on_open_control
    }

    /// The approve button was activated.
    pub fn approve_clicked(&mut self)
        ensures
            final(self)@.wf(),
            old(self)@.finished(final(self)@, Outcome::Decided(Verdict::Approved)),
    {
        proof {
            use_type_invariant(&*self);
        }
        self.finish(Outcome::Decided(Verdict::Approved));
    }

    /// The deny button was activated, or a toplevel window was asked to close.
    pub fn deny_clicked(&mut self)
        ensures
            final(self)@.wf(),
            old(self)@.finished(final(self)@, Outcome::Decided(Verdict::Denied)),
    {
        proof {
            use_type_invariant(&*self);
        }
        self.finish(Outcome::Decided(Verdict::Denied));
    }

    /// The minimize button was activated.
    pub fn minimize_clicked(&mut self)
        ensures
            final(self)@.wf(),
            old(self)@.finished(final(self)@, Outcome::Minimize),
    {
        proof {
            use_type_invariant(&*self);
        }
        self.finish(Outcome::Minimize);
    }

    /// The window gained or lost keyboard focus. A prompt whose focus moved away and back must not
    /// be live the instant it returns, and a key held across a focus change must not look like a
    /// fresh press afterwards.
    pub fn focus_changed(&mut self, active: bool, now: u64)
        ensures
            final(self)@.wf(),
            old(self)@.only_input(final(self)@),
            if active {
                final(self)@.settle == old(self)@.settle.restarted(now) && final(self)@.held == old(self)@.held
            } else {
                final(self)@.settle == old(self)@.settle && final(self)@.held.len() == 0
            },
    {
        proof {
            use_type_invariant(&*self);
        }
        if active {
            let mut s = self.settle;
            s.restart(now);
            self.settle = s;
        } else {
            self.held = Vec::new();
        }
    }

    /// A surface reached its second frame: the compositor is really presenting it, so the quiet
    /// period starts (again) now.
    pub fn presented(&mut self, now: u64)
        ensures
            final(self)@.wf(),
            old(self)@.only_input(final(self)@),
            final(self)@.held == old(self)@.held,
            final(self)@.settle == if old(self)@.over {
                old(self)@.settle
            } else {
                old(self)@.settle.restarted(now)
            },
    {
        proof {
            use_type_invariant(&*self);
        }
        if !self.over {
            let mut s = self.settle;
            s.restart(now);
            self.settle = s;
        }
    }

    /// The settle timer fired. Reaching the cap denies rather than enabling the controls; a change
    /// of the settled state is handed back for the dialogs.
    pub fn settle_tick(&mut self, now: u64) -> (t: Tick)
        ensures
            final(self)@.wf(),
            final(self)@.held == old(self)@.held,
            final(self)@.locked == old(self)@.locked,
            final(self)@.fallback_done == old(self)@.fallback_done,
            old(self)@.over ==> final(self)@ == old(self)@ && t == Tick::Stop,
            !old(self)@.over ==> ({
                let polled = old(self)@.settle.polled(now);
                let state = SettleView::spec_poll(old(self)@.settle, now);
                &&& final(self)@.settle == polled
                &&& if state == SettleState::CapExceeded {
                    &&& t == Tick::Stop
                    &&& final(self)@.over
                    &&& final(self)@.outcome == Some(Outcome::Decided(Verdict::DeniedSettleCap))
                    &&& final(self)@.shown_settled == old(self)@.shown_settled
                } else {
                    &&& final(self)@.over == old(self)@.over
                    &&& final(self)@.outcome == old(self)@.outcome
                    &&& final(self)@.shown_settled == Some(polled.settled)
                    &&& t == Tick::Continue(
                        if old(self)@.shown_settled == Some(polled.settled) {
                            None
                        } else {
                            Some(polled.settled)
                        },
                    )
                }
            }),
    {
        proof {
            use_type_invariant(&*self);
        }
        if self.over {
            return Tick::Stop;
        }
        let mut s = self.settle;
        let state = s.poll(now);
        self.settle = s;
        match state {
            SettleState::CapExceeded => {
                self.finish(Outcome::Decided(Verdict::DeniedSettleCap));
                Tick::Stop
            },
            _ => {
                let settled = self.settle.is_settled();
                let changed = match self.shown_settled {
                    Some(shown) => shown != settled,
                    None => true,
                };
                if changed {
                    self.shown_settled = Some(settled);
                    Tick::Continue(Some(settled))
                } else {
                    Tick::Continue(None)
                }
            },
        }
    }

    /// A signal (SIGINT, SIGTERM or SIGHUP) arrived while the phase was live: a denial.
    pub fn signal(&mut self, sig: i32)
        ensures
            final(self)@.wf(),
            old(self)@.finished(final(self)@, Outcome::Decided(Verdict::DeniedSignal(sig))),
    {
        proof {
            use_type_invariant(&*self);
        }
        self.finish(Outcome::Decided(Verdict::DeniedSignal(sig)));
    }

    /// A surface went away and `remaining` are left. Holding the locks with nothing on screen is
    /// worse than failing.
    pub fn surface_lost(&mut self, remaining: usize)
        ensures
            final(self)@.wf(),
            if remaining == 0 {
                old(self)@.failed(final(self)@, no_outputs_left())
            } else {
                final(self)@ == old(self)@
            },
    {
        proof {
            use_type_invariant(&*self);
        }
        if remaining == 0 && !self.over {
            self.finish(Outcome::Decided(Verdict::Error(String::from_str("no outputs left to present the prompt on"))));
        }
    }

    /// Two seconds after the lock was taken: were there any outputs at all? The `monitor` signal
    /// can come after `locked`, so neither signal can answer that.
    pub fn outputs_checked(&mut self, surfaces: usize)
        ensures
            final(self)@.wf(),
            if surfaces == 0 {
                old(self)@.failed(final(self)@, no_outputs())
            } else {
                final(self)@ == old(self)@
            },
    {
        proof {
            use_type_invariant(&*self);
        }
        if surfaces == 0 && !self.over {
            self.finish(Outcome::Decided(Verdict::Error(String::from_str("no outputs to present the prompt on"))));
        }
    }

    /// The compositor confirmed the lock: surfaces made before it may now be presented.
    pub fn lock_confirmed(&mut self)
        ensures
            final(self)@.wf(),
            final(self)@ == (PhaseView { locked: true, ..old(self)@ }),
    {
        proof {
            use_type_invariant(&*self);
        }
        self.locked = true;
    }

    /// A lock surface was made for a new output: present it now, or only once the lock is
    /// confirmed? Presenting inside a lock that then fails is a protocol error.
    pub fn present_now(&self) -> (r: bool)
        ensures
            r == self@.locked,
    {
        self.locked
    }

    /// The session lock failed. Where the lock is required (sudo-prompt) that is a denial, never a
    /// downgrade to a weaker surface; otherwise fall back, once.
    pub fn lock_failed(&mut self, lock_required: bool) -> (r: LockFailure)
        ensures
            final(self)@.wf(),
            lock_required ==> old(self)@.failed(final(self)@, could_not_lock()) && r == LockFailure::Settled,
            !lock_required ==> final(self)@ == old(self)@ && r == if old(self)@.fallback_done {
                LockFailure::Settled
            } else {
                LockFailure::FallBack
            },
    {
        proof {
            use_type_invariant(&*self);
        }
        if lock_required {
            if !self.over {
                self.finish(Outcome::Decided(Verdict::Error(String::from_str("could not take the session lock"))));
            }
            LockFailure::Settled
        } else if self.fallback_done {
            LockFailure::Settled
        } else {
            LockFailure::FallBack
        }
    }

    /// Commit to falling back, unless the run already did or the phase is over.
    pub fn begin_fallback(&mut self) -> (go: bool)
        ensures
            final(self)@.wf(),
            go == (!old(self)@.fallback_done && !old(self)@.over),
            final(self)@ == (PhaseView { fallback_done: old(self)@.fallback_done || go, ..old(self)@ }),
    {
        proof {
            use_type_invariant(&*self);
        }
        if self.fallback_done || self.over {
            return false;
        }
        self.fallback_done = true;
        true
    }
}

/// How the chip phase ends.
#[derive(Debug)]
pub enum ChipOutcome {
    /// Back to the full prompt: a new lock, new surfaces and a new quiet period.
    Expand,
    Decided(Verdict),
}

/// The minimized prompt's phase. Deliberately powerless: it can deny and it can expand, and no
/// event it takes can approve.
pub struct ChipPhase {
    outcome: Option<ChipOutcome>,
    over: bool,
}

pub struct ChipView {
    pub outcome: Option<ChipOutcome>,
    pub over: bool,
}

impl View for ChipPhase {
    type V = ChipView;

    closed spec fn view(&self) -> ChipView {
        ChipView { outcome: self.outcome, over: self.over }
    }
}

impl ChipView {
    /// An outcome only ever ends the phase, and it is never an approval.
    pub open spec fn wf(self) -> bool {
        &&& (self.outcome is Some ==> self.over)
        &&& !(self.outcome matches Some(ChipOutcome::Decided(Verdict::Approved)))
    }

    pub open spec fn finished(self, new: ChipView, o: ChipOutcome) -> bool {
        &&& new.over
        &&& new.outcome == if self.over { self.outcome } else { Some(o) }
    }

    pub open spec fn failed(self, new: ChipView, msg: Seq<char>) -> bool {
        &&& new.over
        &&& if self.over {
            new.outcome == self.outcome
        } else {
            new.outcome matches Some(ChipOutcome::Decided(Verdict::Error(m))) && m@ == msg
        }
    }
}

impl ChipPhase {
    #[verifier::type_invariant]
    spec fn inv(self) -> bool {
        self@.wf()
    }

    pub fn new() -> (c: ChipPhase)
        ensures
            c@.wf(),
            !c@.over,
            c@.outcome is None,
    {
        ChipPhase { outcome: None, over: false }
    }

    pub fn live(&self) -> (r: bool)
        ensures
            r == !self@.over,
    {
        !self.over
    }

    fn finish(&mut self, o: ChipOutcome)
        requires
            !(o matches ChipOutcome::Decided(Verdict::Approved)),
        ensures
            final(self)@.wf(),
            old(self)@.finished(final(self)@, o),
    {
        proof {
            use_type_invariant(&*self);
        }
        if self.over {
            return;
        }
        self.over = true;
        self.outcome = Some(o);
    }

    /// The chip's X: a denial.
    pub fn cancel_clicked(&mut self)
        ensures
            final(self)@.wf(),
            old(self)@.finished(final(self)@, ChipOutcome::Decided(Verdict::Denied)),
    {
        proof {
            use_type_invariant(&*self);
        }
        self.finish(ChipOutcome::Decided(Verdict::Denied));
    }

    /// Anywhere else on the chip: back to the full prompt.
    pub fn body_clicked(&mut self)
        ensures
            final(self)@.wf(),
            old(self)@.finished(final(self)@, ChipOutcome::Expand),
    {
        proof {
            use_type_invariant(&*self);
        }
        self.finish(ChipOutcome::Expand);
    }

    /// A signal is a denial here exactly as it is under the full prompt.
    pub fn signal(&mut self, sig: i32)
        ensures
            final(self)@.wf(),
            old(self)@.finished(final(self)@, ChipOutcome::Decided(Verdict::DeniedSignal(sig))),
    {
        proof {
            use_type_invariant(&*self);
        }
        self.finish(ChipOutcome::Decided(Verdict::DeniedSignal(sig)));
    }

    /// The chip surfaces could not be made; `msg` says why.
    pub fn start_failed(&mut self, msg: String)
        ensures
            final(self)@.wf(),
            old(self)@.failed(final(self)@, msg@),
    {
        proof {
            use_type_invariant(&*self);
        }
        self.finish(ChipOutcome::Decided(Verdict::Error(msg)));
    }

    /// An output went away with `remaining` chips left. A request nobody can answer must not sit
    /// there holding sudo-prompt's flock. Once the phase is over a late removal changes nothing.
    pub fn surface_lost(&mut self, remaining: usize)
        ensures
            final(self)@.wf(),
            if remaining == 0 {
                old(self)@.failed(final(self)@, no_outputs_left())
            } else {
                final(self)@ == old(self)@
            },
    {
        proof {
            use_type_invariant(&*self);
        }
        if remaining == 0 && !self.over {
            self.finish(ChipOutcome::Decided(Verdict::Error(String::from_str("no outputs left to present the prompt on"))));
        }
    }

    pub fn take_outcome(&mut self) -> (o: Option<ChipOutcome>)
        ensures
            final(self)@.wf(),
            o == old(self)@.outcome,
            final(self)@.outcome is None,
            final(self)@.over == old(self)@.over,
    {
        proof {
            use_type_invariant(&*self);
        }
        let mut o: Option<ChipOutcome> = None;
        std::mem::swap(&mut o, &mut self.outcome);
        o
    }
}

/// The chip is powerless: whatever happened while minimized, its outcome is never an approval.
/// Approval happens only on the lock surface, behind a fresh quiet period.
pub proof fn the_chip_never_approves(c: ChipView)
    requires
        c.wf(),
    ensures
        !(c.outcome matches Some(ChipOutcome::Decided(Verdict::Approved))),
{
}

/// Where a run goes after a phase.
#[derive(Debug)]
pub enum Next {
    /// Minimized: unlock, and show the chip.
    Chip,
    /// Expanded: lock again, with new surfaces and a new quiet period.
    Full,
    /// The run is over.
    Done(Verdict),
}

/// After a full phase. A phase that ended without an outcome is an error, never an approval.
pub fn after_full(o: Option<Outcome>) -> (n: Next)
    ensures
        match o {
            Some(Outcome::Decided(v)) => n == Next::Done(v),
            Some(Outcome::Minimize) => n is Chip,
            None => n matches Next::Done(Verdict::Error(m)) && m@ == "prompt exited without a decision"@,
        },
{
    match o {
        Some(Outcome::Decided(v)) => Next::Done(v),
        Some(Outcome::Minimize) => Next::Chip,
        None => Next::Done(Verdict::Error(String::from_str("prompt exited without a decision"))),
    }
}

/// After a chip phase.
pub fn after_chip(o: Option<ChipOutcome>) -> (n: Next)
    ensures
        match o {
            Some(ChipOutcome::Decided(v)) => n == Next::Done(v),
            Some(ChipOutcome::Expand) => n is Full,
            None => n matches Next::Done(Verdict::Error(m)) && m@ == "the chip exited without a decision"@,
        },
{
    match o {
        Some(ChipOutcome::Decided(v)) => Next::Done(v),
        Some(ChipOutcome::Expand) => Next::Full,
        None => Next::Done(Verdict::Error(String::from_str("the chip exited without a decision"))),
    }
}

/// Minimizing is offered only on the session lock, and only when the dialog says what the chip
/// shows: the other surfaces do not seize the screen, so there is nothing to get out of the way of.
pub fn minimize_offered(has_chip: bool, mode: SurfaceMode) -> (r: bool)
    ensures
        r == (has_chip && mode == SurfaceMode::SessionLock),
{
    has_chip && mode == SurfaceMode::SessionLock
}

} // verus!
