use std::time::{Duration, Instant};

use galaxy_ui::timers::{poll_due, restart_if_due, PollingTimers, POLL_INTERVAL_MS};

#[test]
fn timers_start_with_200_ms_intervals() {
    let t = PollingTimers::new();
    assert_eq!(POLL_INTERVAL_MS, 200);
    assert_eq!(t.planet_snapshot_interval_ms, 200);
    assert_eq!(t.explorer_snapshot_interval_ms, 200);
    assert_eq!(t.explorer_position_interval_ms, 200);
}

#[test]
fn poll_due_at_the_interval_boundary() {
    assert!(!poll_due(199_999_999, 200));
    assert!(poll_due(200_000_000, 200));
    assert!(poll_due(u128::MAX, u64::MAX));
    assert!(poll_due(0, 0));
}

#[test]
fn fresh_timers_are_not_due_and_old_ones_are() {
    let mut t = PollingTimers::new();
    assert!(!t.should_poll_planet_snapshots());
    assert!(!t.should_poll_explorer_snapshots());
    assert!(!t.should_poll_explorer_positions());
    let long_ago = Instant::now().checked_sub(Duration::from_millis(500)).unwrap();
    t.planet_snapshot_timer = long_ago;
    let untouched = t.explorer_snapshot_timer;
    assert!(t.should_poll_planet_snapshots());
    // the timer restarted: not due again right away
    assert!(!t.should_poll_planet_snapshots());
    assert_eq!(t.explorer_snapshot_timer, untouched);
    t.explorer_position_timer = long_ago;
    assert!(t.should_poll_explorer_positions());
    t.explorer_snapshot_timer = long_ago;
    assert!(t.should_poll_explorer_snapshots());
    assert_eq!(t.planet_snapshot_interval_ms, 200);
}

#[test]
fn restart_only_when_due() {
    let start = Instant::now().checked_sub(Duration::from_millis(300)).unwrap();
    let now = Instant::now();
    let mut timer = start;
    assert!(!restart_if_due(&mut timer, 200, 199_999_999, now));
    assert_eq!(timer, start);
    assert!(restart_if_due(&mut timer, 200, 200_000_000, now));
    assert_eq!(timer, now);
}
