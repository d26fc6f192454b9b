use voxurf::error::ExecutionError;
use voxurf::monitor::{ExecutorOpts, Stability, Verdict};

fn opts() -> ExecutorOpts {
    ExecutorOpts { max_round_trips: 5, tree_poll_interval_ms: 50, stability_threshold_ms: 250, stability_timeout_ms: 10_000 }
}

fn run(opts: &ExecutorOpts, sames: &[bool]) -> (Stability, usize) {
    let mut s = Stability::new();
    let mut polls = 0;
    for same in sames {
        if !s.keep_polling(opts) {
            break;
        }
        s = s.observe(*same);
        polls += 1;
    }
    (s, polls)
}

#[test]
fn options_are_valid_when_both_durations_exceed_a_positive_interval() {
    assert!(opts().is_valid());
    assert!(!ExecutorOpts { tree_poll_interval_ms: 0, ..opts() }.is_valid());
    assert!(!ExecutorOpts { stability_threshold_ms: 50, ..opts() }.is_valid());
    assert!(!ExecutorOpts { stability_timeout_ms: 10, ..opts() }.is_valid());
}

#[test]
fn fresh_monitor_has_seen_nothing() {
    let s = Stability::new();
    assert!(!s.change_recorded);
    assert_eq!(s.stable_iters, 0);
    assert_eq!(s.total_iters, 0);
    assert!(s.keep_polling(&opts()));
}

#[test]
fn change_then_five_unchanged_polls_is_stable() {
    let (s, polls) = run(&opts(), &[false, true, true, true, true, true, true, true]);
    assert_eq!(polls, 6);
    assert!(s.change_recorded);
    assert_eq!(s.stable_iters, 5);
    assert_eq!(s.total_iters, 6);
    assert!(matches!(s.conclude(&opts()), Verdict::Stable));
    assert_eq!(s.conclude(&opts()).into_error(), None);
}

#[test]
fn unchanged_polls_before_the_first_change_do_not_count() {
    let (s, _) = run(&opts(), &[true, true, true, false, true, true]);
    assert!(s.change_recorded);
    assert_eq!(s.stable_iters, 2);
    assert_eq!(s.total_iters, 6);
    assert!(s.keep_polling(&opts()));
}

#[test]
fn a_change_resets_the_count_of_unchanged_polls() {
    let (s, _) = run(&opts(), &[false, true, true, true, false, true]);
    assert_eq!(s.stable_iters, 1);
    assert_eq!(s.total_iters, 6);
}

#[test]
fn no_change_within_the_timeout_is_no_tree_update() {
    let o = ExecutorOpts { stability_timeout_ms: 500, ..opts() };
    let (s, polls) = run(&o, &[true; 100]);
    assert_eq!(polls, 10);
    assert!(!s.keep_polling(&o));
    assert!(matches!(s.conclude(&o), Verdict::NoTreeUpdate { timeout_ms: 250 }));
    assert_eq!(s.conclude(&o).into_error(), Some(ExecutionError::NoTreeUpdate { timeout_ms: 250 }));
}

#[test]
fn constant_change_within_the_timeout_is_a_stabilisation_timeout() {
    let o = ExecutorOpts { stability_timeout_ms: 500, ..opts() };
    let (s, polls) = run(&o, &[false; 100]);
    assert_eq!(polls, 10);
    assert!(matches!(s.conclude(&o), Verdict::TreeStabilisationTimeout { timeout_ms: 500 }));
    assert_eq!(
        s.conclude(&o).into_error(),
        Some(ExecutionError::TreeStabilisationTimeout { timeout_ms: 500 })
    );
}

#[test]
fn durations_become_polls_by_integer_division() {
    let o = ExecutorOpts { tree_poll_interval_ms: 100, stability_threshold_ms: 250, stability_timeout_ms: 399, ..opts() };
    // Two unchanged polls make the tree stable; at most three polls are made.
    let (s, polls) = run(&o, &[false, true, true, true]);
    assert_eq!(polls, 3);
    assert_eq!(s.stable_iters, 2);
    assert!(matches!(s.conclude(&o), Verdict::Stable));
    let (s, polls) = run(&o, &[true, false, true, true]);
    assert_eq!(polls, 3);
    assert!(matches!(s.conclude(&o), Verdict::TreeStabilisationTimeout { timeout_ms: 399 }));
}
