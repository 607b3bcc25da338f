//! Scroll-back recovery: the decision logic of the procedure that scrolls
//! the view backwards once per reload cycle to restore missed items. The
//! caller performs the actual scrolling and hands back what it observes;
//! this module decides when to step and when to stop.

use vstd::prelude::*;

verus! {

/// How many pixels one scroll step moves. Fixed policy value.
pub const SCROLL_STEP_PX: u32 = 800;

/// The pause between scroll steps, in milliseconds. Fixed policy value.
pub const SCROLL_WAIT_MS: u64 = 1800;

/// The pause before scroll-back starts, in milliseconds. Fixed policy value.
pub const INITIAL_WAIT_BEFORE_SCROLL_MS: u64 = 2000;

/// The cap on targeted scroll steps. Fixed policy value.
pub const MAX_SCROLL_STEPS: u32 = 50;

/// How many blind steps a first run scrolls. Fixed policy value.
pub const BLIND_SCROLL_STEPS: u32 = 6;

/// How a scroll-back runs: a fixed number of blind steps on a first run,
/// or targeted steps hunting for the last seen item id.
#[derive(Clone, Copy, Debug, PartialEq, Eq, Structural)]
pub enum ScrollMode {
    Blind,
    Targeted,
}

/// The state of one scroll-back procedure.
pub struct ScrollBack {
    pub mode: ScrollMode,
    pub steps: u32,
    pub last_height: u64,
}

impl ScrollBack {
    /// Starts a scroll-back: blind when the feed has no last seen item id
    /// (first run), targeted otherwise.
    pub fn start(has_last_item: bool) -> (r: ScrollBack)
        ensures
            r.mode == if has_last_item {
                ScrollMode::Targeted
            } else {
                ScrollMode::Blind
            },
            r.steps == 0,
            r.last_height == 0,
    {
        ScrollBack {
            mode: if has_last_item {
                ScrollMode::Targeted
            } else {
                ScrollMode::Blind
            },
            steps: 0,
            last_height: 0,
        }
    }

    /// One blind step: scrolls without looking, and reports whether the
    /// fixed budget of steps is spent.
    pub fn blind_step(&mut self) -> (done: bool)
        requires
            old(self).mode == ScrollMode::Blind,
            old(self).steps < BLIND_SCROLL_STEPS,
        ensures
            final(self).mode == old(self).mode,
            final(self).last_height == old(self).last_height,
            final(self).steps == old(self).steps + 1,
            done == (final(self).steps >= BLIND_SCROLL_STEPS),
    {
        self.steps = self.steps + 1;
        self.steps >= BLIND_SCROLL_STEPS
    }

    /// Whether a targeted scroll-back stops before the next step: the last
    /// seen id became visible again, the step cap is reached, or the
    /// scrollable height stopped growing after enough steps to rule out
    /// slow initial rendering.
    pub fn should_stop(&self, last_id_visible: bool, height: u64) -> (stop: bool)
        requires
            self.mode == ScrollMode::Targeted,
        ensures
            stop == (last_id_visible || self.steps >= MAX_SCROLL_STEPS || (height
                == self.last_height && self.steps > 4)),
    {
        last_id_visible || self.steps >= MAX_SCROLL_STEPS || (height == self.last_height
            && self.steps > 4)
    }

    /// One targeted step: records the height observed before scrolling and
    /// counts the step.
    pub fn targeted_step(&mut self, height: u64)
        requires
            old(self).mode == ScrollMode::Targeted,
            old(self).steps < MAX_SCROLL_STEPS,
        ensures
            final(self).mode == old(self).mode,
            final(self).steps == old(self).steps + 1,
            final(self).last_height == height,
    {
        self.last_height = height;
        self.steps = self.steps + 1;
    }
}

} // verus!
