//! The progress display's timing: when it started, when it last drew, and
//! whether another redraw is due.
//!
//! The drawing itself is terminal I/O and lives outside the library; time
//! is handed in by the caller as milliseconds of its clock.

use vstd::prelude::*;
use crate::dht::node::spec_elapsed;

verus! {

/// Milliseconds between two redraws by default.
pub const DEFAULT_UPDATE_INTERVAL_MS: u64 = 500;

/// Progress display state for the command line.
#[derive(Debug)]
pub struct ProgressDisplay {
    /// When the download started.
    pub start_time: u64,
    /// When the display last redrew.
    pub last_update: u64,
    /// Milliseconds between redraws.
    pub update_interval_ms: u64,
    /// Quiet mode: no progress output at all.
    pub quiet: bool,
}

impl ProgressDisplay {
    /// A display started now, redrawing at the default interval.
    pub fn new(quiet: bool, now: u64) -> (r: ProgressDisplay)
        ensures
            r.start_time == now,
            r.last_update == now,
            r.update_interval_ms == DEFAULT_UPDATE_INTERVAL_MS,
            r.quiet == quiet,
    {
        ProgressDisplay {
            start_time: now,
            last_update: now,
            update_interval_ms: DEFAULT_UPDATE_INTERVAL_MS,
            quiet,
        }
    }

    /// A display with default settings: not quiet, default interval.
    pub fn default(now: u64) -> (r: ProgressDisplay)
        ensures
            r.start_time == now,
            r.last_update == now,
            r.update_interval_ms == DEFAULT_UPDATE_INTERVAL_MS,
            r.quiet == false,
    {
        Self::new(false, now)
    }

    /// A display with a custom redraw interval.
    pub fn with_interval(quiet: bool, interval_ms: u64, now: u64) -> (r: ProgressDisplay)
        ensures
            r.start_time == now,
            r.last_update == now,
            r.update_interval_ms == interval_ms,
            r.quiet == quiet,
    {
        ProgressDisplay { start_time: now, last_update: now, update_interval_ms: interval_ms, quiet }
    }

    /// Milliseconds since the download started.
    pub fn elapsed(&self, now: u64) -> (r: u64)
        ensures
            r == spec_elapsed(self.start_time, now),
    {
        crate::dht::node::elapsed_ms(self.start_time, now)
    }

    /// Whether quiet mode is on.
    pub fn is_quiet(&self) -> (r: bool)
        ensures
            r == self.quiet,
    {
        self.quiet
    }

    /// Whether a redraw is due: never in quiet mode, and otherwise exactly
    /// when the interval has passed since the last one.
    pub fn due_for_update(&self, now: u64) -> (r: bool)
        ensures
            r == (!self.quiet && spec_elapsed(self.last_update, now) >= self.update_interval_ms),
    {
        !self.quiet && crate::dht::node::elapsed_ms(self.last_update, now)
            >= self.update_interval_ms
    }

    /// Records that the display redrew now.
    pub fn mark_updated(&mut self, now: u64)
        ensures
            final(self).last_update == now,
            final(self).start_time == old(self).start_time,
            final(self).update_interval_ms == old(self).update_interval_ms,
            final(self).quiet == old(self).quiet,
    {
        self.last_update = now;
    }
}

} // verus!
