use ci::cli::daemon::{run, Daemon, DaemonAction, DaemonEvent};
use ci::sync::trigger::TriggerState;
use ci::time::Timestamp;

const HOUR: i64 = 3600;

#[test]
fn fresh_state_is_due() {
    let s = TriggerState::new(12);
    assert!(s.last_sync.is_none());
    assert_eq!(s.cooldown_hours, 12);
    assert!(s.should_sync_at(Timestamp::new(0, 0)));
    assert!(s.should_sync());
}

#[test]
fn cooldown_counts_from_last_sync() {
    let mut s = TriggerState::new(12);
    s.mark_synced_at(Timestamp::new(1_700_000_000, 0));
    assert!(!s.should_sync_at(Timestamp::new(1_700_000_000, 0)));
    assert!(!s.should_sync_at(Timestamp::new(1_700_000_000 + 12 * HOUR - 1, 999_999_999)));
    assert!(s.should_sync_at(Timestamp::new(1_700_000_000 + 12 * HOUR, 0)));
    assert!(s.should_sync_at(Timestamp::new(1_700_000_000 + 40 * HOUR, 0)));
    assert!(!s.should_sync_at(Timestamp::new(1_600_000_000, 0)));
}

#[test]
fn zero_cooldown_is_always_due() {
    let mut s = TriggerState::new(0);
    s.mark_synced_at(Timestamp::new(50, 0));
    assert!(s.should_sync_at(Timestamp::new(50, 0)));
}

#[test]
fn wrapped_cooldown_is_negative() {
    let mut s = TriggerState::new(u64::MAX);
    s.mark_synced_at(Timestamp::new(100, 0));
    assert!(s.should_sync_at(Timestamp::new(100 - HOUR, 0)));
    assert!(!s.should_sync_at(Timestamp::new(100 - HOUR - 1, 0)));
}

#[test]
fn marking_synced_reads_the_clock() {
    let mut s = TriggerState::new(12);
    s.mark_synced();
    let t = s.last_sync.unwrap();
    assert!(t.secs > 1_600_000_000);
    assert!(t.nanos < 1_000_000_000);
    assert!(!s.should_sync());
}

#[test]
fn daemon_once_runs_a_due_cycle_then_stops() {
    let mut d = Daemon::new(false, TriggerState::new(12));
    let t = Timestamp::new(1_000_000, 0);
    assert_eq!(run(&mut d, DaemonEvent::Check { now: t }), DaemonAction::RunCycle);
    assert_eq!(run(&mut d, DaemonEvent::CycleFinished { succeeded: true, now: t }), DaemonAction::SaveAndFinish);
    assert_eq!(d.state.last_sync, Some(t));
    assert_eq!(run(&mut d, DaemonEvent::Check { now: Timestamp::new(1_000_000 + HOUR, 0) }), DaemonAction::Skip);
    assert_eq!(run(&mut d, DaemonEvent::Check { now: Timestamp::new(1_000_000 + 12 * HOUR, 0) }), DaemonAction::RunCycle);
}

#[test]
fn daemon_once_fails_with_its_cycle() {
    let mut d = Daemon::new(false, TriggerState::new(12));
    let t = Timestamp::new(5, 0);
    assert_eq!(run(&mut d, DaemonEvent::CycleFinished { succeeded: false, now: t }), DaemonAction::Fail);
    assert!(d.state.last_sync.is_none());
}

#[test]
fn daemon_watching_waits_and_stops_with_watcher() {
    let mut d = Daemon::new(true, TriggerState::new(12));
    let t = Timestamp::new(1_000, 0);
    assert_eq!(run(&mut d, DaemonEvent::Check { now: t }), DaemonAction::RunCycle);
    assert_eq!(run(&mut d, DaemonEvent::CycleFinished { succeeded: false, now: t }), DaemonAction::Wait);
    assert!(d.state.last_sync.is_none());
    assert_eq!(run(&mut d, DaemonEvent::CycleFinished { succeeded: true, now: t }), DaemonAction::SaveAndWait);
    assert_eq!(run(&mut d, DaemonEvent::Check { now: Timestamp::new(1_000 + HOUR, 0) }), DaemonAction::Wait);
    assert_eq!(run(&mut d, DaemonEvent::WatcherClosed), DaemonAction::Finish);
    assert!(d.watch);
}
