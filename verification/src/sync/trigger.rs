//! The cooldown that spaces automatic syncs.

use vstd::prelude::*;

use crate::time::{now, Timestamp};

verus! {

/// The largest number of hours that `chrono::TimeDelta::hours` accepts
/// (`i64::MAX` milliseconds, in whole hours).
pub const MAX_COOLDOWN_HOURS: u64 = 2_562_047_788_015;

/// `hours` is a cooldown that the duration arithmetic accepts: read as a
/// signed 64-bit number of hours, it lies within the range of a duration.
pub open spec fn hours_in_range(hours: u64) -> bool {
    hours <= 2_562_047_788_015 || hours >= 0x1_0000_0000_0000_0000 - 2_562_047_788_015
}

/// `hours` read as a signed 64-bit integer (`hours as i64`).
pub open spec fn signed_hours(hours: u64) -> int {
    if hours <= 0x7fff_ffff_ffff_ffff {
        hours as int
    } else {
        hours - 0x1_0000_0000_0000_0000
    }
}

/// The cooldown of `hours` hours, in nanoseconds.
pub open spec fn cooldown_nanos(hours: u64) -> int {
    signed_hours(hours) * 3600 * 1_000_000_000
}

/// When the last sync ran, and how many hours must pass before the next one.
#[derive(Debug)]
pub struct TriggerState {
    pub last_sync: Option<Timestamp>,
    pub cooldown_hours: u64,
}

impl TriggerState {
    /// At `now`, a sync is due: none has run yet, or at least the cooldown has
    /// passed since the last one.
    pub open spec fn spec_should_sync_at(self, now: Timestamp) -> bool {
        match self.last_sync {
            Some(last) => now.instant() - last.instant() >= cooldown_nanos(self.cooldown_hours),
            None => true,
        }
    }

    /// The cooldown can be computed wherever it is needed.
    pub open spec fn cooldown_ok(self) -> bool {
        self.last_sync is Some ==> hours_in_range(self.cooldown_hours)
    }

    /// A state in which no sync has run yet.
    pub fn new(cooldown_hours: u64) -> (s: TriggerState)
        ensures
            s.last_sync is None,
            s.cooldown_hours == cooldown_hours,
    {
        TriggerState { last_sync: None, cooldown_hours }
    }

    /// The cooldown as a signed number of nanoseconds.
    fn cooldown_in_nanos(&self) -> (c: i128)
        requires
            hours_in_range(self.cooldown_hours),
        ensures
            c == cooldown_nanos(self.cooldown_hours),
    {
        let h = self.cooldown_hours;
        let hours: i128 = if h <= 0x7fff_ffff_ffff_ffff {
            h as i128
        } else {
            (h as i128) - 0x1_0000_0000_0000_0000
        };
        assert(-2_562_047_788_015 <= hours <= 2_562_047_788_015);
        hours * 3600 * 1_000_000_000
    }

    /// Whether a sync is due at `now`.
    pub fn should_sync_at(&self, now: Timestamp) -> (due: bool)
        requires
            self.cooldown_ok(),
        ensures
            due == self.spec_should_sync_at(now),
    {
        match self.last_sync {
            Some(last) => {
                let elapsed = now.nanos_since(last);
                elapsed >= self.cooldown_in_nanos()
            },
            None => true,
        }
    }

    /// Whether a sync is due now, by the system clock: `should_sync_at` of the
    /// time read, an instant with non-negative seconds and nanoseconds below
    /// one second. Where no sync has run yet it always is.
    pub fn should_sync(&self) -> (due: bool)
        requires
            self.cooldown_ok(),
        ensures
            self.last_sync is None ==> due,
            exists|t: Timestamp|
                t.secs >= 0 && t.nanos < 1_000_000_000 && due == #[trigger] self.spec_should_sync_at(t),
    {
        let t = now();
        self.should_sync_at(t)
    }

    /// Records that a sync ran at `now`.
    pub fn mark_synced_at(&mut self, now: Timestamp)
        ensures
            final(self).last_sync == Some(now),
            final(self).cooldown_hours == old(self).cooldown_hours,
    {
        self.last_sync = Some(now);
    }

    /// Records that a sync ran now, by the system clock.
    pub fn mark_synced(&mut self)
        ensures
            final(self).last_sync is Some,
            final(self).last_sync.unwrap().secs >= 0,
            final(self).last_sync.unwrap().nanos < 1_000_000_000,
            final(self).cooldown_hours == old(self).cooldown_hours,
    {
        let t = now();
        self.mark_synced_at(t);
    }
}

/// A state in which no sync has run yet finds a sync due at any time.
pub proof fn law_fresh_state_is_due(cooldown_hours: u64, at: Timestamp)
    ensures
        (TriggerState { last_sync: None, cooldown_hours }).spec_should_sync_at(at),
{
}

/// After a sync at `t`, a sync is due at `at` exactly when at least the
/// cooldown has passed since `t`; with a positive cooldown, none is due at `t`
/// itself.
pub proof fn law_cooldown_after_sync(s: TriggerState, t: Timestamp, at: Timestamp)
    requires
        s.last_sync == Some(t),
    ensures
        s.spec_should_sync_at(at) <==> at.instant() - t.instant() >= cooldown_nanos(s.cooldown_hours),
        0 < s.cooldown_hours <= MAX_COOLDOWN_HOURS ==> !s.spec_should_sync_at(t),
{
    if 0 < s.cooldown_hours <= MAX_COOLDOWN_HOURS {
        assert(signed_hours(s.cooldown_hours) > 0);
        assert(cooldown_nanos(s.cooldown_hours) > 0) by (nonlinear_arith)
            requires
                signed_hours(s.cooldown_hours) > 0,
                cooldown_nanos(s.cooldown_hours) == signed_hours(s.cooldown_hours) * 3600 * 1_000_000_000,
        ;
    }
}

/// Once a sync is due it stays due until the next one runs.
pub proof fn law_due_stays_due(s: TriggerState, t1: Timestamp, t2: Timestamp)
    requires
        s.spec_should_sync_at(t1),
        t1.instant() <= t2.instant(),
    ensures
        s.spec_should_sync_at(t2),
{
}

/// A cooldown of `h` hours, for `0 <= h <= MAX_COOLDOWN_HOURS`, lasts
/// `h * 3600 * 10^9` nanoseconds: after a sync at `t`, a sync is due at `at`
/// exactly when that much time has passed.
pub proof fn law_cooldown_is_hours(s: TriggerState, t: Timestamp, at: Timestamp)
    requires
        s.last_sync == Some(t),
        s.cooldown_hours <= MAX_COOLDOWN_HOURS,
    ensures
        cooldown_nanos(s.cooldown_hours) == s.cooldown_hours * 3600 * 1_000_000_000,
        s.spec_should_sync_at(at) <==> at.instant() - t.instant() >= s.cooldown_hours * 3600 * 1_000_000_000,
{
}

} // verus!
