//! Observation scheduler: the cooperative layer that reacts to
//! content-changed signals, debounces bursts into one cycle, serializes
//! cycles, and arranges the periodic full reload. The caller waits and
//! observes; this module holds the timing state and the dispatch decision.

use vstd::prelude::*;
use crate::engine;
use crate::engine::CycleKind;

verus! {

/// The debounce quiet window after a content-changed signal, in
/// milliseconds. Fixed policy value.
pub const DEBOUNCE_MS: u64 = 400;

/// The timing state of one feed's scheduler.
pub struct Scheduler {
    /// When the pending debounced trigger fires, if one is pending.
    pub debounce_deadline: Option<u64>,
    /// Whether a cycle or recovery is in progress; triggers wait while set.
    pub busy: bool,
    /// When the next full reload is due, if one is scheduled.
    pub reload_at: Option<u64>,
}

impl Scheduler {
    /// A fresh scheduler: nothing pending, nothing running.
    pub fn new() -> (r: Scheduler)
        ensures
            r.debounce_deadline == Option::<u64>::None,
            !r.busy,
            r.reload_at == Option::<u64>::None,
    {
        Scheduler { debounce_deadline: None, busy: false, reload_at: None }
    }

    /// A content-changed signal: the pending trigger, if any, is replaced,
    /// so a burst of signals within the quiet window coalesces into one
    /// trigger at the last signal plus the window.
    pub fn on_content_changed(&mut self, now: u64)
        requires
            now + DEBOUNCE_MS <= u64::MAX,
        ensures
            final(self).debounce_deadline == Some((now + DEBOUNCE_MS) as u64),
            final(self).busy == old(self).busy,
            final(self).reload_at == old(self).reload_at,
    {
        self.debounce_deadline = Some(now + DEBOUNCE_MS);
    }

    /// Whether the debounced trigger fires now: its deadline has passed and
    /// no cycle is in progress — a trigger that fires while a cycle or
    /// recovery runs waits until it completes.
    pub fn trigger_due(&self, now: u64) -> (r: bool)
        ensures
            r == (!self.busy && match self.debounce_deadline {
                Some(d) => now >= d,
                None => false,
            }),
    {
        !self.busy && match self.debounce_deadline {
            Some(d) => now >= d,
            None => false,
        }
    }

    /// Begins one cycle: consumes the pending trigger, marks the scheduler
    /// busy, and dispatches by the entry condition — catch up when the gap
    /// since the last run reaches the threshold, scan otherwise.
    pub fn begin_cycle(&mut self, now: u64, last_run_time: u64, threshold_minutes: u64) -> (r:
        CycleKind)
        requires
            !old(self).busy,
        ensures
            final(self).busy,
            final(self).debounce_deadline == Option::<u64>::None,
            final(self).reload_at == old(self).reload_at,
            r == CycleKind::CatchingUp <==> engine::catch_up_due(
                now,
                last_run_time,
                threshold_minutes,
            ),
    {
        self.debounce_deadline = None;
        self.busy = true;
        engine::decide_cycle(now, last_run_time, threshold_minutes)
    }

    /// Begins the one catch-up pass that follows scroll-back on a reload
    /// cycle, regardless of the gap since the last run: consumes any
    /// pending trigger and marks the scheduler busy.
    pub fn begin_recovery(&mut self)
        requires
            !old(self).busy,
        ensures
            final(self).busy,
            final(self).debounce_deadline == Option::<u64>::None,
            final(self).reload_at == old(self).reload_at,
    {
        self.debounce_deadline = None;
        self.busy = true;
    }

    /// Ends the running cycle; a trigger that arrived meanwhile may fire
    /// on the next check.
    pub fn end_cycle(&mut self)
        ensures
            !final(self).busy,
            final(self).debounce_deadline == old(self).debounce_deadline,
            final(self).reload_at == old(self).reload_at,
    {
        self.busy = false;
    }

    /// Schedules the next full reload after the monitor's refresh interval.
    pub fn schedule_reload(&mut self, now: u64, refresh_minutes: u32)
        requires
            now + (refresh_minutes as u64) * 60000 <= u64::MAX,
        ensures
            final(self).reload_at == Some((now + (refresh_minutes as u64) * 60000) as u64),
            final(self).busy == old(self).busy,
            final(self).debounce_deadline == old(self).debounce_deadline,
    {
        self.reload_at = Some(now + (refresh_minutes as u64) * 60000);
    }

    /// Whether the scheduled full reload is due.
    pub fn reload_due(&self, now: u64) -> (r: bool)
        ensures
            r == match self.reload_at {
                Some(t) => now >= t,
                None => false,
            },
    {
        match self.reload_at {
            Some(t) => now >= t,
            None => false,
        }
    }
}

} // verus!
