use sudo_prompt::settle::{Settle, SettleState, SETTLE, SETTLE_CAP};

const D: u64 = 1000;
const CAP: u64 = 5000;

/// A clock reading `ms` milliseconds after `base`.
fn at(base: u64, ms: u64) -> u64 {
    base + ms
}

const T0: u64 = 1_000_000;

#[test]
fn waits_until_a_surface_is_presented() {
    let t0 = T0;
    let mut s = Settle::new(D, CAP);
    assert_eq!(s.poll(at(t0, 10_000)), SettleState::Waiting);
}

#[test]
fn settles_after_a_quiet_period() {
    let t0 = T0;
    let mut s = Settle::new(D, CAP);
    s.restart(t0);
    assert_eq!(s.poll(at(t0, 999)), SettleState::Waiting);
    assert_eq!(s.poll(at(t0, 1000)), SettleState::Settled);
}

#[test]
fn input_restarts_the_quiet_period() {
    let t0 = T0;
    let mut s = Settle::new(D, CAP);
    s.restart(t0);
    s.input(at(t0, 900));
    assert_eq!(s.poll(at(t0, 1500)), SettleState::Waiting);
    assert_eq!(s.poll(at(t0, 1900)), SettleState::Settled);
}

#[test]
fn continuous_input_hits_the_cap_and_denies() {
    let t0 = T0;
    let mut s = Settle::new(D, CAP);
    s.restart(t0);
    let mut ms = 0;
    loop {
        ms += 100;
        s.input(at(t0, ms));
        match s.poll(at(t0, ms)) {
            SettleState::Waiting => {}
            other => {
                assert_eq!(other, SettleState::CapExceeded);
                assert_eq!(ms, 5000);
                break;
            }
        }
        assert!(ms < 10_000, "cap never reached");
    }
}

#[test]
fn input_does_not_extend_the_cap() {
    let t0 = T0;
    let mut s = Settle::new(D, CAP);
    s.restart(t0);
    s.input(at(t0, 4900));
    assert_eq!(s.poll(at(t0, 5000)), SettleState::CapExceeded);
}

#[test]
fn a_non_input_restart_also_restarts_the_cap() {
    let t0 = T0;
    let mut s = Settle::new(D, CAP);
    s.restart(t0);
    // A late-waking output presents at 4.9s: the prompt gets a fresh chance to settle.
    s.restart(at(t0, 4900));
    assert_eq!(s.poll(at(t0, 5000)), SettleState::Waiting);
    assert_eq!(s.poll(at(t0, 5900)), SettleState::Settled);
}

#[test]
fn a_restart_unsettles_a_live_prompt() {
    let t0 = T0;
    let mut s = Settle::new(D, CAP);
    s.restart(t0);
    assert_eq!(s.poll(at(t0, 1000)), SettleState::Settled);
    s.restart(at(t0, 2000));
    assert!(!s.is_settled());
    assert_eq!(s.poll(at(t0, 2500)), SettleState::Waiting);
}

#[test]
fn input_after_settling_is_not_a_disturbance() {
    let t0 = T0;
    let mut s = Settle::new(D, CAP);
    s.restart(t0);
    assert_eq!(s.poll(at(t0, 1000)), SettleState::Settled);
    s.input(at(t0, 1100));
    assert_eq!(s.poll(at(t0, 1100)), SettleState::Settled);
}

#[test]
fn the_compiled_in_periods() {
    assert_eq!(SETTLE, 400);
    assert_eq!(SETTLE_CAP, 5000);
}

#[test]
fn input_before_presentation_starts_nothing() {
    let mut s = Settle::new(SETTLE, SETTLE_CAP);
    s.input(10);
    assert_eq!(s.quiet_start(), None);
    assert_eq!(s.poll(100_000), SettleState::Waiting);
}

#[test]
fn a_stuck_key_is_denied_at_the_cap_not_before() {
    let mut s = Settle::new(SETTLE, SETTLE_CAP);
    s.restart(0);
    let mut t = 0;
    while t < 4_990 {
        t += 10;
        s.input(t);
        assert_eq!(s.poll(t), SettleState::Waiting, "at {t}");
    }
    s.input(5_000);
    assert_eq!(s.poll(5_000), SettleState::CapExceeded);
}

#[test]
fn a_clock_that_steps_back_counts_as_no_time() {
    let mut s = Settle::new(SETTLE, SETTLE_CAP);
    s.restart(1_000);
    assert_eq!(s.poll(500), SettleState::Waiting);
    assert_eq!(s.poll(1_400), SettleState::Settled);
}

#[test]
fn settled_only_after_a_settled_poll_since_the_last_restart() {
    let mut s = Settle::new(SETTLE, SETTLE_CAP);
    assert!(!s.is_settled());
    s.restart(0);
    assert!(!s.is_settled());
    s.input(100);
    assert_eq!(s.poll(200), SettleState::Waiting);
    assert!(!s.is_settled());
    assert_eq!(s.poll(500), SettleState::Settled);
    assert!(s.is_settled());
    s.input(600);
    assert!(s.is_settled());
    s.restart(700);
    assert!(!s.is_settled());
}
