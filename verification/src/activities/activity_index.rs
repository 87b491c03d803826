//! The bucketed container behind the activity schedule.

use vstd::prelude::*;

verus! {

/// A pending activity: which agent, and when it ends.
#[derive(PartialEq, Eq, Structural, Clone, Copy, Debug)]
pub struct Activity {
    pub agent_idx: u32,
    pub end_timestep: u16,
}

/// Buckets of activities, indexed by offset from the current time.
pub type ActivityIndex = std::collections::VecDeque<Vec<Activity>>;

} // verus!
