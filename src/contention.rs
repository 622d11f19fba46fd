use vstd::prelude::*;

verus! {

/// Failed steps tolerated within one attempt before contention is declared.
pub const CONTENTION_THRESHOLD: usize = 2;

/// The value that `detect` gives a failure count: one more, saturating at the
/// largest `usize`.
pub open spec fn bumped(failures: nat) -> nat {
    if failures < usize::MAX {
        failures + 1
    } else {
        failures
    }
}

/// A counter scoped to one attempt that decides when direct retries are
/// abandoned.
pub trait ContentionMeasure: Sized {
    /// Failed steps recorded so far.
    spec fn failures(&self) -> nat;

    /// Failures tolerated before `detected` holds.
    spec fn threshold(&self) -> nat;

    fn new() -> (r: Self)
        ensures
            r.failures() == 0,
            r.threshold() == CONTENTION_THRESHOLD,
    ;

    fn with_threshold(threshold: usize) -> (r: Self)
        ensures
            r.failures() == 0,
            r.threshold() == threshold,
    ;

    fn detected(&self) -> (r: bool)
        ensures
            r == (self.failures() > self.threshold()),
    ;

    fn detect(&mut self)
        ensures
            final(self).failures() == bumped(old(self).failures()),
            final(self).threshold() == old(self).threshold(),
    ;

    fn reset(&mut self)
        ensures
            final(self).failures() == 0,
            final(self).threshold() == old(self).threshold(),
    ;
}

/// Counts failed steps and reports contention once the count exceeds its
/// threshold.
pub struct CounterContentionMeasure {
    count: usize,
    limit: usize,
}

impl ContentionMeasure for CounterContentionMeasure {
    closed spec fn failures(&self) -> nat {
        self.count as nat
    }

    closed spec fn threshold(&self) -> nat {
        self.limit as nat
    }

    fn new() -> (r: CounterContentionMeasure) {
        CounterContentionMeasure { count: 0, limit: CONTENTION_THRESHOLD }
    }

    fn with_threshold(threshold: usize) -> (r: CounterContentionMeasure) {
        CounterContentionMeasure { count: 0, limit: threshold }
    }

    fn detected(&self) -> (r: bool) {
        self.count > self.limit
    }

    fn detect(&mut self) {
        if self.count < usize::MAX {
            self.count = self.count + 1;
        }
    }

    fn reset(&mut self) {
        self.count = 0;
    }
}

} // verus!
