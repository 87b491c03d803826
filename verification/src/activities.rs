//! An early sketch of activity generation, kept alongside the event
//! scheduler: a time-bucketed queue of per-agent activities.

use vstd::prelude::*;

use crate::activities::activity_index::ActivityIndex;

pub mod activity_index;

pub use activity_index::Activity;

verus! {

/// The activity schedule: a time-bucketed queue of pending activities.
pub struct Activities {
    pub activity_index: ActivityIndex,
}

/// The next activity an agent takes up when one ends: a placeholder
/// generator that always schedules another activity twelve steps on.
pub fn get_next_activity(agent_idx: u32, time_step: u16) -> (r: Option<Activity>)
    requires
        time_step + 12 <= u16::MAX,
    ensures
        r == Some(Activity { agent_idx, end_timestep: (time_step + 12) as u16 }),
{
    Some(Activity { agent_idx, end_timestep: time_step + 12 })
}

} // verus!
