//! Run state: the persisted cursor of one feed — the time of the last run
//! and the id and time of the last item seen. Missing or unreadable
//! persisted state degrades to the first-run defaults, never to a failure.

use vstd::prelude::*;

verus! {

/// The mathematical value of a `RunState`.
pub struct RunStateModel {
    pub last_run_time: u64,
    pub last_item_id: Option<Seq<char>>,
    pub last_item_time: Option<Seq<char>>,
}

/// The persisted cursor of one feed. Times are milliseconds since the
/// epoch; item times are timestamp strings of a uniform sortable format.
pub struct RunState {
    pub last_run_time: u64,
    pub last_item_id: Option<String>,
    pub last_item_time: Option<String>,
}

impl View for RunState {
    type V = RunStateModel;

    open spec fn view(&self) -> RunStateModel {
        RunStateModel {
            last_run_time: self.last_run_time,
            last_item_id: self.last_item_id.deep_view(),
            last_item_time: self.last_item_time.deep_view(),
        }
    }
}

/// The zero-value state a feed starts from.
pub open spec fn first_run_model() -> RunStateModel {
    RunStateModel { last_run_time: 0, last_item_id: None, last_item_time: None }
}

impl RunState {
    /// The state of a feed that has never run.
    pub fn first_run() -> (r: RunState)
        ensures
            r@ == first_run_model(),
    {
        RunState { last_run_time: 0, last_item_id: None, last_item_time: None }
    }

    /// The loaded state, or first-run defaults where nothing usable was
    /// persisted.
    pub fn from_loaded(loaded: Option<RunState>) -> (r: RunState)
        ensures
            r@ == match loaded {
                Some(s) => s@,
                None => first_run_model(),
            },
    {
        match loaded {
            Some(s) => s,
            None => RunState::first_run(),
        }
    }
}

} // verus!
