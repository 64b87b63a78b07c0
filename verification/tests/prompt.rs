use sudo_prompt::prompt::{
    after_chip, after_full, key_of, minimize_offered, response_line, Answer, ChipOutcome, ChipPhase, Key,
    LockFailure, Next, Outcome, Phase, Propagation, SurfaceMode, Tick, Verdict,
};
use sudo_prompt::settle::{SETTLE, SETTLE_CAP};

/// A phase whose surface was presented at 0 and whose quiet period has passed.
fn settled_phase() -> Phase {
    let mut p = Phase::new(SETTLE, SETTLE_CAP);
    p.presented(0);
    assert_eq!(p.settle_tick(SETTLE), Tick::Continue(Some(true)));
    p
}

fn verdict_of(p: &mut Phase) -> Option<String> {
    match p.take_outcome() {
        Some(Outcome::Decided(v)) => Some(format!("{v:?}")),
        Some(Outcome::Minimize) => Some("Minimize".to_string()),
        None => None,
    }
}

#[test]
fn surface_modes_parse() {
    assert_eq!(SurfaceMode::parse("auto"), Some(SurfaceMode::Auto));
    assert_eq!(SurfaceMode::parse("session-lock"), Some(SurfaceMode::SessionLock));
    assert_eq!(SurfaceMode::parse("layer"), Some(SurfaceMode::Layer));
    assert_eq!(SurfaceMode::parse("toplevel"), Some(SurfaceMode::Toplevel));
    assert_eq!(SurfaceMode::parse("Auto"), None);
    assert_eq!(SurfaceMode::parse(""), None);
    assert_eq!(SurfaceMode::parse("session-lock "), None);
}

#[test]
fn a_fresh_enter_approves_once_settled() {
    let mut p = settled_phase();
    assert_eq!(p.key_pressed(36, Key::Enter, false, 1000), Propagation::Stop);
    assert!(!p.live());
    assert_eq!(verdict_of(&mut p), Some("Approved".to_string()));
}

#[test]
fn enter_before_settling_does_nothing_but_restart_the_quiet_period() {
    let mut p = Phase::new(SETTLE, SETTLE_CAP);
    p.presented(0);
    assert_eq!(p.key_pressed(36, Key::Enter, false, 100), Propagation::Stop);
    assert!(p.live());
    // The press restarted the quiet period: 400ms from it, not from presentation.
    assert_eq!(p.settle_tick(450), Tick::Continue(Some(false)));
    assert_eq!(p.settle_tick(500), Tick::Continue(Some(true)));
}

#[test]
fn a_key_held_from_before_settling_never_approves() {
    let mut p = Phase::new(SETTLE, SETTLE_CAP);
    p.presented(0);
    p.key_pressed(36, Key::Enter, false, 10);
    assert_eq!(p.settle_tick(1000), Tick::Continue(Some(true)));
    // Autorepeat of the same keycode after settling.
    p.key_pressed(36, Key::Enter, false, 1100);
    assert!(p.live());
    // Released and pressed again: a fresh press.
    p.key_released(36, Key::Enter, false, 1200);
    p.key_pressed(36, Key::Enter, false, 1300);
    assert_eq!(verdict_of(&mut p), Some("Approved".to_string()));
}

#[test]
fn escape_denies_wherever_focus_is() {
    let mut p = settled_phase();
    assert_eq!(p.key_pressed(9, Key::Escape, true, 1000), Propagation::Stop);
    assert_eq!(verdict_of(&mut p), Some("Denied".to_string()));
}

#[test]
fn typing_in_the_response_box_does_not_disturb_settling() {
    let mut p = Phase::new(SETTLE, SETTLE_CAP);
    p.presented(0);
    // A sentence typed into the entry for longer than the cap.
    let mut t = 0;
    while t < 6000 {
        t += 50;
        assert_eq!(p.key_pressed(38, Key::Other, true, t), Propagation::Proceed);
        p.key_released(38, Key::Other, true, t + 10);
        if t == 400 {
            assert_eq!(p.settle_tick(t), Tick::Continue(Some(true)));
        }
    }
    assert!(p.live());
    assert_eq!(p.settle_tick(t), Tick::Continue(None));
}

#[test]
fn keys_outside_the_entry_are_stopped_and_count_as_input() {
    let mut p = Phase::new(SETTLE, SETTLE_CAP);
    p.presented(0);
    assert_eq!(p.key_pressed(38, Key::Other, false, 300), Propagation::Stop);
    assert_eq!(p.settle_tick(600), Tick::Continue(Some(false)));
    assert_eq!(p.key_pressed(54, Key::Copy, false, 650), Propagation::Proceed);
}

#[test]
fn continuous_input_denies_at_the_cap() {
    let mut p = Phase::new(SETTLE, SETTLE_CAP);
    p.presented(0);
    let mut t = 0;
    loop {
        t += 100;
        p.key_pressed(38, Key::Other, false, t);
        match p.settle_tick(t) {
            Tick::Stop => break,
            Tick::Continue(_) => {}
        }
        assert!(t < 10_000);
    }
    assert_eq!(t, SETTLE_CAP);
    assert_eq!(verdict_of(&mut p), Some("DeniedSettleCap".to_string()));
}

#[test]
fn a_press_during_settling_is_claimed_unless_it_lands_on_the_open_controls() {
    let mut p = Phase::new(SETTLE, SETTLE_CAP);
    p.presented(0);
    assert!(p.pointer_pressed(false, 100));
    assert!(!p.pointer_pressed(true, 200));
    assert_eq!(p.settle_tick(550), Tick::Continue(Some(false)));
    assert_eq!(p.settle_tick(600), Tick::Continue(Some(true)));
    assert!(!p.pointer_pressed(false, 700));
}

#[test]
fn focus_loss_forgets_held_keys_and_focus_gain_unsettles() {
    let mut p = Phase::new(SETTLE, SETTLE_CAP);
    p.presented(0);
    p.key_pressed(36, Key::Enter, false, 10);
    p.focus_changed(false, 20);
    p.focus_changed(true, 30);
    assert_eq!(p.settle_tick(100), Tick::Continue(Some(false)));
    assert_eq!(p.settle_tick(430), Tick::Continue(Some(true)));
    // Enter was held across the focus change, but the set was cleared: this is a fresh press.
    p.key_pressed(36, Key::Enter, false, 500);
    assert_eq!(verdict_of(&mut p), Some("Approved".to_string()));
}

#[test]
fn the_first_outcome_wins() {
    let mut p = settled_phase();
    p.deny_clicked();
    p.approve_clicked();
    p.signal(2);
    p.surface_lost(0);
    assert_eq!(p.settle_tick(10_000), Tick::Stop);
    assert_eq!(verdict_of(&mut p), Some("Denied".to_string()));
    // Taken out, and the phase stays over.
    assert!(!p.live());
    p.approve_clicked();
    assert_eq!(verdict_of(&mut p), None);
}

#[test]
fn a_signal_denies() {
    let mut p = Phase::new(SETTLE, SETTLE_CAP);
    p.signal(15);
    assert_eq!(verdict_of(&mut p), Some("DeniedSignal(15)".to_string()));
}

#[test]
fn losing_every_output_is_an_error() {
    let mut p = Phase::new(SETTLE, SETTLE_CAP);
    p.surface_lost(1);
    assert!(p.live());
    p.surface_lost(0);
    assert_eq!(verdict_of(&mut p), Some("Error(\"no outputs left to present the prompt on\")".to_string()));
    let mut q = Phase::new(SETTLE, SETTLE_CAP);
    q.outputs_checked(2);
    assert!(q.live());
    q.outputs_checked(0);
    assert_eq!(verdict_of(&mut q), Some("Error(\"no outputs to present the prompt on\")".to_string()));
}

#[test]
fn a_required_lock_that_fails_is_a_denial_not_a_fallback() {
    let mut p = Phase::new(SETTLE, SETTLE_CAP);
    assert_eq!(p.lock_failed(true), LockFailure::Settled);
    assert_eq!(verdict_of(&mut p), Some("Error(\"could not take the session lock\")".to_string()));
    let mut q = Phase::new(SETTLE, SETTLE_CAP);
    assert_eq!(q.lock_failed(false), LockFailure::FallBack);
    assert!(q.begin_fallback());
    assert!(!q.begin_fallback());
    assert_eq!(q.lock_failed(false), LockFailure::Settled);
    assert!(q.live());
}

#[test]
fn surfaces_wait_for_the_lock() {
    let mut p = Phase::new(SETTLE, SETTLE_CAP);
    assert!(!p.present_now());
    p.lock_confirmed();
    assert!(p.present_now());
}

#[test]
fn presentation_after_the_outcome_changes_nothing() {
    let mut p = settled_phase();
    p.minimize_clicked();
    p.presented(5000);
    assert_eq!(verdict_of(&mut p), Some("Minimize".to_string()));
}

#[test]
fn the_chip_can_deny_or_expand_and_nothing_else() {
    let mut c = ChipPhase::new();
    c.body_clicked();
    c.cancel_clicked();
    assert!(matches!(c.take_outcome(), Some(ChipOutcome::Expand)));
    let mut c = ChipPhase::new();
    c.cancel_clicked();
    assert!(matches!(c.take_outcome(), Some(ChipOutcome::Decided(Verdict::Denied))));
    let mut c = ChipPhase::new();
    c.signal(1);
    assert!(matches!(c.take_outcome(), Some(ChipOutcome::Decided(Verdict::DeniedSignal(1)))));
    let mut c = ChipPhase::new();
    c.surface_lost(0);
    c.body_clicked();
    assert!(!c.live());
    match c.take_outcome() {
        Some(ChipOutcome::Decided(Verdict::Error(e))) => assert_eq!(e, "no outputs left to present the prompt on"),
        other => panic!("{other:?}"),
    }
    let mut c = ChipPhase::new();
    c.start_failed("compositor does not support zwlr_layer_shell_v1".to_string());
    assert!(matches!(c.take_outcome(), Some(ChipOutcome::Decided(Verdict::Error(_)))));
}

#[test]
fn phases_hand_over() {
    assert!(matches!(after_full(Some(Outcome::Minimize)), Next::Chip));
    assert!(matches!(after_full(Some(Outcome::Decided(Verdict::Approved))), Next::Done(Verdict::Approved)));
    match after_full(None) {
        Next::Done(Verdict::Error(e)) => assert_eq!(e, "prompt exited without a decision"),
        other => panic!("{other:?}"),
    }
    assert!(matches!(after_chip(Some(ChipOutcome::Expand)), Next::Full));
    match after_chip(None) {
        Next::Done(Verdict::Error(e)) => assert_eq!(e, "the chip exited without a decision"),
        other => panic!("{other:?}"),
    }
}

#[test]
fn minimize_only_on_the_session_lock_with_a_chip() {
    assert!(minimize_offered(true, SurfaceMode::SessionLock));
    assert!(!minimize_offered(false, SurfaceMode::SessionLock));
    assert!(!minimize_offered(true, SurfaceMode::Layer));
    assert!(!minimize_offered(true, SurfaceMode::Auto));
}

#[test]
fn only_an_answer_carries_the_response() {
    let typed = || Some("because".to_string());
    assert_eq!(Answer::conclude(Verdict::Approved, typed()).response, typed());
    assert_eq!(Answer::conclude(Verdict::Denied, typed()).response, typed());
    assert_eq!(Answer::conclude(Verdict::DeniedSettleCap, typed()).response, None);
    assert_eq!(Answer::conclude(Verdict::DeniedSignal(2), typed()).response, None);
    assert_eq!(Answer::conclude(Verdict::Error("x".to_string()), typed()).response, None);
    assert_eq!(Answer::conclude(Verdict::Approved, Some(String::new())).response, None);
    assert_eq!(Answer::conclude(Verdict::Approved, None).response, None);
    assert_eq!(Answer::conclude(Verdict::Approved, Some(" ".to_string())).response, Some(" ".to_string()));
    assert!(Answer::bare(Verdict::Denied).response.is_none());
}

#[test]
fn the_response_line_is_one_escaped_line() {
    assert_eq!(response_line(&"looks fine".to_string()), "User response: looks fine");
    assert_eq!(response_line(&"a\nb\u{202e}".to_string()), "User response: a\\x0ab\\u{202e}");
}

#[test]
fn keys_are_told_apart() {
    assert_eq!(key_of(0xff0d, false), Key::Enter);
    assert_eq!(key_of(0xff8d, true), Key::Enter);
    assert_eq!(key_of(0xfe34, false), Key::Enter);
    assert_eq!(key_of(0xff1b, false), Key::Escape);
    assert_eq!(key_of(0x63, true), Key::Copy);
    assert_eq!(key_of(0x43, true), Key::Copy);
    assert_eq!(key_of(0xff63, true), Key::Copy);
    assert_eq!(key_of(0xff9e, true), Key::Copy);
    assert_eq!(key_of(0x63, false), Key::Other);
    assert_eq!(key_of(0x61, true), Key::Other);
}
