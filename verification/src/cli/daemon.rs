//! `ci daemon`: when to run a sync cycle (import, sync, export), once or
//! whenever Rime's user directory changes, never within the cooldown.

use vstd::prelude::*;

use crate::sync::trigger::TriggerState;
use crate::time::Timestamp;

verus! {

/// The daemon: whether it watches Rime's directory, and its cooldown state.
#[derive(Debug)]
pub struct Daemon {
    pub watch: bool,
    pub state: TriggerState,
}

/// What happened since the daemon last decided.
#[derive(Debug, Clone, Copy, PartialEq, Eq, Structural)]
pub enum DaemonEvent {
    /// The daemon starts, or (watching) files changed and settled, at `now`.
    Check { now: Timestamp },
    /// A sync cycle ended at `now`, successfully or not.
    CycleFinished { succeeded: bool, now: Timestamp },
    /// The watcher of Rime's directory stopped.
    WatcherClosed,
}

/// What the daemon does next.
#[derive(Debug, Clone, Copy, PartialEq, Eq, Structural)]
pub enum DaemonAction {
    /// Run a sync cycle: import, sync, export.
    RunCycle,
    /// The cooldown is still running: stop without syncing.
    Skip,
    /// The cycle succeeded: save the state, then stop (a failed save fails the run).
    SaveAndFinish,
    /// The cycle failed: stop with its error.
    Fail,
    /// The cycle succeeded: save the state (a failed save is ignored), then wait.
    SaveAndWait,
    /// Wait for the next change in Rime's directory.
    Wait,
    /// Stop.
    Finish,
}

/// The state after `event` and the action it calls for.
pub open spec fn daemon_step(d: Daemon, event: DaemonEvent) -> (TriggerState, DaemonAction) {
    match event {
        DaemonEvent::Check { now } => {
            if d.state.spec_should_sync_at(now) {
                (d.state, DaemonAction::RunCycle)
            } else if d.watch {
                (d.state, DaemonAction::Wait)
            } else {
                (d.state, DaemonAction::Skip)
            }
        },
        DaemonEvent::CycleFinished { succeeded, now } => {
            if succeeded {
                (
                    TriggerState { last_sync: Some(now), cooldown_hours: d.state.cooldown_hours },
                    if d.watch { DaemonAction::SaveAndWait } else { DaemonAction::SaveAndFinish },
                )
            } else {
                (d.state, if d.watch { DaemonAction::Wait } else { DaemonAction::Fail })
            }
        },
        DaemonEvent::WatcherClosed => (d.state, DaemonAction::Finish),
    }
}

impl Daemon {
    /// A daemon in the given mode with the given cooldown state.
    pub fn new(watch: bool, state: TriggerState) -> (d: Daemon)
        ensures
            d.watch == watch,
            d.state == state,
    {
        Daemon { watch, state }
    }
}

/// Decides the daemon's next action on `event`: a cycle runs only where the
/// cooldown has passed; a finished cycle, when it succeeded, is recorded as
/// the last sync. Run once, the daemon stops after one decision or one cycle;
/// watching, it waits for the next change until the watcher closes.
pub fn run(daemon: &mut Daemon, event: DaemonEvent) -> (action: DaemonAction)
    requires
        event is Check ==> old(daemon).state.cooldown_ok(),
    ensures
        final(daemon).watch == old(daemon).watch,
        (final(daemon).state, action) == daemon_step(*old(daemon), event),
{
    match event {
        DaemonEvent::Check { now } => {
            if daemon.state.should_sync_at(now) {
                DaemonAction::RunCycle
            } else if daemon.watch {
                DaemonAction::Wait
            } else {
                DaemonAction::Skip
            }
        },
        DaemonEvent::CycleFinished { succeeded, now } => {
            if succeeded {
                daemon.state.mark_synced_at(now);
                if daemon.watch {
                    DaemonAction::SaveAndWait
                } else {
                    DaemonAction::SaveAndFinish
                }
            } else if daemon.watch {
                DaemonAction::Wait
            } else {
                DaemonAction::Fail
            }
        },
        DaemonEvent::WatcherClosed => DaemonAction::Finish,
    }
}

/// A cycle starts only on a check at which a sync is due.
pub proof fn law_cycle_only_when_due(d: Daemon, event: DaemonEvent)
    ensures
        daemon_step(d, event).1 == DaemonAction::RunCycle ==> (event matches DaemonEvent::Check { now }
            && d.state.spec_should_sync_at(now)),
{
}

/// After a cycle that succeeded at `t`, a check at `at` starts another cycle
/// exactly when at least the cooldown has passed since `t`.
pub proof fn law_no_cycle_within_cooldown(d: Daemon, t: Timestamp, at: Timestamp)
    ensures
        ({
            let d2 = Daemon {
                watch: d.watch,
                state: daemon_step(d, DaemonEvent::CycleFinished { succeeded: true, now: t }).0,
            };
            daemon_step(d2, DaemonEvent::Check { now: at }).1 == DaemonAction::RunCycle
                <==> at.instant() - t.instant() >= crate::sync::trigger::cooldown_nanos(d.state.cooldown_hours)
        }),
{
}

/// A failed cycle leaves the cooldown state as it was.
pub proof fn law_failed_cycle_changes_nothing(d: Daemon, t: Timestamp)
    ensures
        daemon_step(d, DaemonEvent::CycleFinished { succeeded: false, now: t }).0 == d.state,
{
}

/// Run once, the daemon never waits: each decision either runs a cycle or
/// ends the run. Watching, it ends only when the watcher closes.
pub proof fn law_modes(d: Daemon, event: DaemonEvent)
    ensures
        !d.watch ==> daemon_step(d, event).1 != DaemonAction::Wait && daemon_step(d, event).1
            != DaemonAction::SaveAndWait,
        d.watch ==> (daemon_step(d, event).1 == DaemonAction::Finish <==> event is WatcherClosed),
        d.watch ==> daemon_step(d, event).1 != DaemonAction::Skip && daemon_step(d, event).1
            != DaemonAction::Fail && daemon_step(d, event).1 != DaemonAction::SaveAndFinish,
{
}

} // verus!
