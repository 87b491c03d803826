//! Simulation-wide parameters and the basic time / probability scales.
//!
//! All quantities are integers: times are counted in time steps, positions in
//! spatial units, and probabilities in parts per `CHANCE_SCALE`.

use vstd::prelude::*;

verus! {

/// A point in simulated time, counted in time steps since the start of a run.
pub type TimeStep = u64;

/// Probabilities are fixed-point fractions with this denominator (parts per million).
pub const CHANCE_SCALE: u64 = 1_000_000;

/// Exclusive upper bound on spatial coordinates (about a thousand kilometres in metres).
pub const MAX_COORD: u32 = 1_048_576;

/// Upper bound on the time steps a run may reach; keeps all tick arithmetic in `u64`.
pub const MAX_TIME_STEP: u64 = 1_099_511_627_776;

/// Upper bound on `time_steps_per_day`.
pub const MAX_TIME_STEPS_PER_DAY: u64 = 1_048_576;

/// Upper bound on a travel speed, in spatial units per time step.
pub const MAX_SPEED: u64 = 1_048_576;

/// Exclusive upper bound on a direct commute's length in time steps; it
/// follows from the coordinate bound.
pub const MAX_DIRECT_TICKS: u64 = 2_097_152;

/// Upper bound on a transit commute's length in time steps; longer shortest
/// paths are treated as unusable.
pub const MAX_TRANSIT_TICKS: u64 = 4_294_967_295;

/// Upper bound on a single transit edge's weight; together with a node
/// count that fits `u32`, it keeps every weight sum inside the
/// shortest-path index within `usize` on a 64-bit machine.
pub const MAX_EDGE_WEIGHT: u64 = 1_073_741_824;

/// Exclusive upper bound on how far ahead of its trigger a follow-on event
/// may be scheduled; commutes and dwell times both stay below it.
pub const MAX_EVENT_OFFSET: u64 = 4_294_967_295;

/// Days an infection lasts before the carrier recovers (terminal threshold).
pub const INFECTION_LENGTH_DAYS: u64 = 12;

/// Days after exposure before the carrier turns infectious (incubation threshold).
pub const INCUBATION_LENGTH_DAYS: u64 = 3;

/// A position in the simulated space, in integer spatial units (metres).
/// All coordinates lie inside the model's bounds, hence below `MAX_COORD`.
#[derive(PartialEq, Eq, Structural, Clone, Copy, Debug)]
pub struct Pos {
    pub x: u32,
    pub y: u32,
}

/// The exclusive upper corner of the simulated space; the lower corner is the origin.
#[derive(PartialEq, Eq, Structural, Clone, Copy, Debug)]
pub struct Bounds {
    pub max_x: u32,
    pub max_y: u32,
}

impl Bounds {
    /// Bounds the grid and router can work under.
    pub open spec fn wf(self) -> bool {
        &&& 1 <= self.max_x <= MAX_COORD
        &&& 1 <= self.max_y <= MAX_COORD
    }

    /// Whether a position lies inside these bounds.
    pub open spec fn spec_contains(self, p: Pos) -> bool {
        p.x < self.max_x && p.y < self.max_y
    }

    /// Whether a position lies inside these bounds.
    pub fn contains(&self, p: &Pos) -> (r: bool)
        ensures
            r == self.spec_contains(*p),
    {
        p.x < self.max_x && p.y < self.max_y
    }
}

/// The configuration of one simulation run.
///
/// Every component takes these values explicitly; there is no process-wide state.
pub struct SimParams {
    /// How many time steps make one simulated day.
    pub time_steps_per_day: u64,
    /// How many days to simulate; `None` means run indefinitely.
    pub sim_length_days: Option<u64>,
    /// Chance, in parts per `CHANCE_SCALE`, that an agent starts out infected.
    pub seed_infection_chance: u64,
    /// Walking speed in spatial units per time step.
    pub walking_speed: u64,
    /// Cycling speed in spatial units per time step.
    pub cycling_speed: u64,
    /// Driving speed in spatial units per time step.
    pub driving_speed: u64,
}

impl SimParams {
    /// The bounds under which all of the simulation's arithmetic stays in range.
    pub open spec fn wf(self) -> bool {
        &&& 2 <= self.time_steps_per_day <= MAX_TIME_STEPS_PER_DAY
        &&& (self.sim_length_days matches Some(days) ==> days * self.time_steps_per_day
            <= MAX_TIME_STEP)
        &&& self.seed_infection_chance <= CHANCE_SCALE
        &&& 1 <= self.walking_speed <= MAX_SPEED
        &&& 1 <= self.cycling_speed <= MAX_SPEED
        &&& 1 <= self.driving_speed <= MAX_SPEED
    }

    /// Ticks after which an exposed agent turns infectious.
    pub open spec fn spec_incubation_threshold(self) -> int {
        INCUBATION_LENGTH_DAYS * self.time_steps_per_day
    }

    /// Ticks after which an infected agent recovers.
    pub open spec fn spec_recovery_threshold(self) -> int {
        INFECTION_LENGTH_DAYS * self.time_steps_per_day
    }

    /// Ticks after which an exposed agent turns infectious.
    pub fn incubation_threshold(&self) -> (r: u64)
        requires
            self.wf(),
        ensures
            r == self.spec_incubation_threshold(),
    {
        INCUBATION_LENGTH_DAYS * self.time_steps_per_day
    }

    /// Ticks after which an infected agent recovers.
    pub fn recovery_threshold(&self) -> (r: u64)
        requires
            self.wf(),
        ensures
            r == self.spec_recovery_threshold(),
    {
        INFECTION_LENGTH_DAYS * self.time_steps_per_day
    }
}

impl Default for SimParams {
    /// Half-hour time steps, a sixty-day run, a 1% seeding chance, and
    /// walking / cycling / driving at 5, 24 and 60 km/h, expressed in
    /// spatial units (metres) per time step.
    fn default() -> (r: SimParams)
        ensures
            r.wf(),
            r.time_steps_per_day == 48,
            r.sim_length_days == Some(60u64),
            r.seed_infection_chance == 10_000,
            r.walking_speed == 2_500,
            r.cycling_speed == 12_000,
            r.driving_speed == 30_000,
    {
        SimParams {
            time_steps_per_day: 48,
            sim_length_days: Some(60),
            seed_infection_chance: 10_000,
            walking_speed: 2_500,
            cycling_speed: 12_000,
            driving_speed: 30_000,
        }
    }
}

} // verus!
