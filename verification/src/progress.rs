//! The progress reporter's decisions: what it holds, when an update is worth
//! printing, and how it finishes. Reading the clock and printing the line are
//! the caller's part; times come in as milliseconds of a monotonic clock.

use vstd::prelude::*;

verus! {

/// The least time between two printed updates, unless the work is complete.
pub const PRINT_INTERVAL_MS: u64 = 250;

/// A progress reporter for `total` units of work.
pub struct Progress {
    label: &'static str,
    total: u64,
    current: u64,
    started_ms: u64,
    last_printed_ms: Option<u64>,
}

/// What a [`Progress`] holds. `last_printed_ms` is `None` until an update has
/// been printed; such a reporter counts as last printed long ago, so its first
/// update is always printed.
pub struct ProgressView {
    pub label: Seq<char>,
    pub total: u64,
    pub current: u64,
    pub started_ms: u64,
    pub last_printed_ms: Option<u64>,
}

impl View for Progress {
    type V = ProgressView;

    closed spec fn view(&self) -> ProgressView {
        ProgressView {
            label: self.label@,
            total: self.total,
            current: self.current,
            started_ms: self.started_ms,
            last_printed_ms: self.last_printed_ms,
        }
    }
}

/// Whether an update at `now_ms` comes late enough after the last printed one.
pub open spec fn interval_elapsed(last_printed_ms: Option<u64>, now_ms: u64) -> bool {
    match last_printed_ms {
        None => true,
        Some(t) => now_ms >= t + PRINT_INTERVAL_MS,
    }
}

/// The smaller of `a` and `b`.
pub open spec fn min_u64(a: u64, b: u64) -> u64 {
    if a <= b {
        a
    } else {
        b
    }
}

impl Progress {
    #[verifier::type_invariant]
    spec fn inv(self) -> bool {
        self.current <= self.total
    }

    /// A reporter started at `now_ms` with nothing done, or `None` where
    /// reporting is disabled. A new reporter is printed at once.
    pub fn new(label: &'static str, total: u64, enabled: bool, now_ms: u64) -> (r: Option<Self>)
        ensures
            r is Some <==> enabled,
            r matches Some(p) ==> p@ == (ProgressView {
                label: label@,
                total,
                current: 0,
                started_ms: now_ms,
                last_printed_ms: None,
            }),
    {
        if !enabled {
            return None;
        }
        Some(Progress { label, total, current: 0, started_ms: now_ms, last_printed_ms: None })
    }

    /// Records that `current` units are done (at most the total) as of
    /// `now_ms`, and says whether this update is to be printed: when the
    /// work is complete, or when the print interval has passed since the last
    /// printed update. A printed update becomes the last printed one.
    pub fn set(&mut self, current: u64, now_ms: u64) -> (print: bool)
        ensures
            final(self)@.current == min_u64(current, old(self)@.total),
            final(self)@.current <= final(self)@.total,
            print == (interval_elapsed(old(self)@.last_printed_ms, now_ms) || final(self)@.current
                == old(self)@.total),
            final(self)@.last_printed_ms == (if print {
                Some(now_ms)
            } else {
                old(self)@.last_printed_ms
            }),
            final(self)@.label == old(self)@.label,
            final(self)@.total == old(self)@.total,
            final(self)@.started_ms == old(self)@.started_ms,
    {
        self.current = if current < self.total {
            current
        } else {
            self.total
        };
        let elapsed = match self.last_printed_ms {
            None => true,
            Some(t) => now_ms.saturating_sub(t) >= PRINT_INTERVAL_MS,
        };
        let print = elapsed || self.current == self.total;
        if print {
            self.last_printed_ms = Some(now_ms);
        }
        print
    }

    /// Completes the work: where it was not complete yet, marks it complete
    /// and returns `true`, the final state being then printed; else returns
    /// `false` and changes nothing.
    pub fn finish(&mut self) -> (print: bool)
        ensures
            print == (old(self)@.current < old(self)@.total),
            final(self)@ == (ProgressView { current: old(self)@.total, ..old(self)@ }),
    {
        proof {
            use_type_invariant(&*self);
        }
        if self.current < self.total {
            self.current = self.total;
            true
        } else {
            false
        }
    }

    /// What the reporter is reporting on.
    pub fn label(&self) -> (r: &'static str)
        ensures
            r@ == self@.label,
    {
        self.label
    }

    /// The units of work in all.
    pub fn total(&self) -> (r: u64)
        ensures
            r == self@.total,
    {
        self.total
    }

    /// The units of work done, never more than the total.
    pub fn current(&self) -> (r: u64)
        ensures
            r == self@.current,
            r <= self@.total,
    {
        proof {
            use_type_invariant(self);
        }
        self.current
    }

    /// When the reporter was started.
    pub fn started_ms(&self) -> (r: u64)
        ensures
            r == self@.started_ms,
    {
        self.started_ms
    }
}

} // verus!
