//! Instants of the monotonic clock as seconds and nanoseconds, for periodic
//! activations and for measuring how long a round took.

use vstd::prelude::*;

verus! {

pub const NANOS_PER_SEC: u64 = 1_000_000_000;

/// An instant: `sec` seconds and `nsec` nanoseconds.
#[derive(Clone, Copy, Debug, PartialEq, Eq, Structural)]
pub struct Timespec {
    pub sec: u64,
    pub nsec: u64,
}

impl Timespec {
    /// The nanoseconds are less than a second.
    pub open spec fn wf(self) -> bool {
        self.nsec < NANOS_PER_SEC
    }

    /// The instant in nanoseconds.
    pub open spec fn nanos(self) -> int {
        self.sec * NANOS_PER_SEC + self.nsec
    }

    /// Whether `period_us` microseconds after this instant is an instant
    /// whose seconds fit.
    pub open spec fn can_advance(self, period_us: u32) -> bool {
        self.sec + (self.nsec + period_us * 1000) / (NANOS_PER_SEC as int) <= u64::MAX
    }

    /// Whether `period_us` microseconds after this instant is an instant
    /// whose seconds fit.
    pub fn fits(&self, period_us: u32) -> (ok: bool)
        requires
            self.wf(),
        ensures
            ok == self.can_advance(period_us),
    {
        let total: u64 = self.nsec + period_us as u64 * 1000;
        self.sec.checked_add(total / NANOS_PER_SEC).is_some()
    }

    /// The instant `period_us` microseconds later: the next activation of a
    /// task of that period. Whole seconds are carried over.
    pub fn advance(&self, period_us: u32) -> (next: Timespec)
        requires
            self.wf(),
            self.can_advance(period_us),
        ensures
            next.wf(),
            next.nanos() == self.nanos() + period_us * 1000,
    {
        let total: u64 = self.nsec + period_us as u64 * 1000;
        Timespec { sec: self.sec + total / NANOS_PER_SEC, nsec: total % NANOS_PER_SEC }
    }

    /// Whether this instant is not later than `other`.
    pub fn not_after(&self, other: &Timespec) -> (ok: bool)
        requires
            self.wf(),
            other.wf(),
        ensures
            ok == (self.nanos() <= other.nanos()),
    {
        self.sec < other.sec || (self.sec == other.sec && self.nsec <= other.nsec)
    }

    /// Whether the microseconds from this instant to `end` fit.
    pub open spec fn can_measure(self, end: Timespec) -> bool {
        self.nanos() <= end.nanos() && (end.nanos() - self.nanos()) / 1000 <= u64::MAX
    }

    /// Whether the microseconds from this instant to `end` fit.
    pub fn measurable(&self, end: &Timespec) -> (ok: bool)
        requires
            self.wf(),
            end.wf(),
        ensures
            ok == self.can_measure(*end),
    {
        if !self.not_after(end) {
            return false;
        }
        let secs: u64 = if end.nsec >= self.nsec {
            end.sec - self.sec
        } else {
            end.sec - self.sec - 1
        };
        let nanos: u64 = if end.nsec >= self.nsec {
            end.nsec - self.nsec
        } else {
            end.nsec + NANOS_PER_SEC - self.nsec
        };
        assert(end.nanos() - self.nanos() == secs * 1_000_000_000 + nanos);
        assert((secs * 1_000_000_000 + nanos) / 1000 == secs * 1_000_000 + nanos / 1000);
        match secs.checked_mul(1_000_000) {
            Some(micros) => micros.checked_add(nanos / 1000).is_some(),
            None => false,
        }
    }

    /// The whole microseconds from this instant to `end`.
    pub fn micros_until(&self, end: &Timespec) -> (micros: u64)
        requires
            self.wf(),
            end.wf(),
            self.can_measure(*end),
        ensures
            micros == (end.nanos() - self.nanos()) / 1000,
    {
        let (secs, nanos): (u64, u64) = if end.nsec >= self.nsec {
            (end.sec - self.sec, end.nsec - self.nsec)
        } else {
            (end.sec - self.sec - 1, end.nsec + NANOS_PER_SEC - self.nsec)
        };
        assert(end.nanos() - self.nanos() == secs * 1_000_000_000 + nanos);
        assert((secs * 1_000_000_000 + nanos) / 1000 == secs * 1_000_000 + nanos / 1000);
        secs * 1_000_000 + nanos / 1000
    }
}

} // verus!
