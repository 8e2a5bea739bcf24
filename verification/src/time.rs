//! Points in time, held as whole seconds and nanoseconds since the Unix epoch.

use vstd::prelude::*;

verus! {

/// A UTC instant: `secs` seconds and `nanos` nanoseconds after
/// 1970-01-01T00:00:00Z (a negative `secs` lies before it). Every instant that
/// a `chrono::DateTime<Utc>` holds outside a leap second has `nanos` below one
/// second; a larger `nanos` simply counts as that many more nanoseconds.
#[derive(Clone, Copy, Debug, PartialEq, Eq, Structural)]
pub struct Timestamp {
    pub secs: i64,
    pub nanos: u32,
}

impl Timestamp {
    /// The instant in nanoseconds since the epoch.
    pub open spec fn instant(self) -> int {
        self.secs * 1_000_000_000 + self.nanos
    }

    /// `self` comes strictly after `other`, ordering by seconds first and
    /// nanoseconds second (the order of `chrono::DateTime`).
    pub open spec fn is_after(self, other: Timestamp) -> bool {
        self.secs > other.secs || (self.secs == other.secs && self.nanos > other.nanos)
    }

    /// The later of two instants; `other` where they are equal.
    pub open spec fn spec_later(self, other: Timestamp) -> Timestamp {
        if self.is_after(other) { self } else { other }
    }

    /// Makes a timestamp from its parts.
    pub fn new(secs: i64, nanos: u32) -> (t: Timestamp)
        ensures
            t.secs == secs,
            t.nanos == nanos,
    {
        Timestamp { secs, nanos }
    }

    /// The later of `self` and `other` (`Ord::max` on date-times).
    pub fn later(self, other: Timestamp) -> (t: Timestamp)
        ensures
            t == self.spec_later(other),
    {
        if self.secs > other.secs || (self.secs == other.secs && self.nanos > other.nanos) {
            self
        } else {
            other
        }
    }

    /// Nanoseconds from `earlier` to `self` (negative when `self` is before it).
    pub fn nanos_since(self, earlier: Timestamp) -> (d: i128)
        ensures
            d == self.instant() - earlier.instant(),
    {
        let ds: i128 = (self.secs as i128) - (earlier.secs as i128);
        assert(-0x1_0000_0000_0000_0000 <= ds <= 0x1_0000_0000_0000_0000);
        assert(-0x1_0000_0000_0000_0000 * 1_000_000_000 <= ds * 1_000_000_000
            <= 0x1_0000_0000_0000_0000 * 1_000_000_000) by (nonlinear_arith)
            requires
                -0x1_0000_0000_0000_0000 <= ds <= 0x1_0000_0000_0000_0000,
        ;
        ds * 1_000_000_000 + (self.nanos as i128) - (earlier.nanos as i128)
    }
}

/// The current time, from `chrono::Utc::now()`.
///
/// Trusted: `Utc::now` reads the system clock through `SystemTime::now`, panics
/// when that clock lies before the Unix epoch and otherwise returns the elapsed
/// whole seconds and the sub-second nanoseconds. The contract states what holds of
/// every such reading: the seconds are not negative and the nanoseconds are below
/// one second. Which instant comes back is not stated: it is the clock's.
#[verifier::external_body]
pub(crate) fn now() -> (t: Timestamp)
    ensures
        t.secs >= 0,
        t.nanos < 1_000_000_000,
{
    let t = chrono::Utc::now();
    Timestamp { secs: t.timestamp(), nanos: t.timestamp_subsec_nanos() }
}

} // verus!
