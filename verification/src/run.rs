//! Run-level records: the initialisation checks a run must pass, the summary
//! of a completed run, the provenance names of the motion models, and the
//! diagnostic counters.

use vstd::prelude::*;

use crate::measure::{bits_nan, bits_sign, bits_zero, Measure, EXPONENT_MASK};

verus! {

/// Whether a bit pattern is a finite value that compares `> 0.0`: its
/// exponent is not all ones, its sign bit is clear, and it is not zero.
pub open spec fn bits_finite_positive(bits: u64) -> bool {
    (bits & EXPONENT_MASK) != EXPONENT_MASK && !bits_sign(bits) && !bits_zero(bits)
}

/// Failure to build a run from a compiled scenario and run configuration.
#[derive(Debug, Clone, Copy, PartialEq, Eq, Structural)]
pub enum InitError {
    /// The fixed step is not finite and positive.
    InvalidStep {
        /// The rejected step in seconds.
        step: Measure,
    },
    /// The population requests vehicles but the scenario declares no path.
    NoGuidePath {
        /// Requested vehicle count.
        vehicles: u32,
    },
    /// The guide path cannot hold the requested initial population.
    PopulationOverflow {
        /// Requested vehicle count.
        requested: u32,
        /// Vehicles that fit at the configured spacing.
        capacity: u32,
    },
}

/// The outcome of a run's initialisation checks: the number of vehicles the
/// static population places along the first guide path, or the first check
/// that fails.
pub open spec fn init_outcome(
    step: Measure,
    demand_sources: usize,
    pedestrian_sources: usize,
    vehicle_count: u32,
    guide_capacity: Option<u32>,
) -> Result<u32, InitError> {
    if !bits_finite_positive(step.bits) {
        Err(InitError::InvalidStep { step })
    } else if demand_sources > 0 || pedestrian_sources > 0 || vehicle_count == 0 {
        Ok(0)
    } else {
        match guide_capacity {
            None => Err(InitError::NoGuidePath { vehicles: vehicle_count }),
            Some(capacity) => if vehicle_count > capacity {
                Err(InitError::PopulationOverflow { requested: vehicle_count, capacity })
            } else {
                Ok(vehicle_count)
            },
        }
    }
}

/// Whether a fixed step is finite and positive.
pub fn step_is_valid(step: Measure) -> (r: bool)
    ensures
        r == bits_finite_positive(step.bits),
{
    (step.bits & EXPONENT_MASK) != EXPONENT_MASK && (step.bits >> 63u64) != 1 && (step.bits
        & 0x7fff_ffff_ffff_ffffu64) != 0
}

/// Check a run's fixed step and its static population.
///
/// The step must be finite and positive. A scenario that declares demand
/// sources of either mode admits its agents over time, so no static
/// population is placed; otherwise the population's vehicles are placed along
/// the first guide path, which must exist (`guide_capacity` is the number of
/// vehicles it fits at the configured spacing, or `None` with no path) and
/// must fit them all.
pub fn check_init(
    step: Measure,
    demand_sources: usize,
    pedestrian_sources: usize,
    vehicle_count: u32,
    guide_capacity: Option<u32>,
) -> (r: Result<u32, InitError>)
    ensures
        r == init_outcome(step, demand_sources, pedestrian_sources, vehicle_count, guide_capacity),
{
    if !step_is_valid(step) {
        return Err(InitError::InvalidStep { step });
    }
    if demand_sources > 0 || pedestrian_sources > 0 || vehicle_count == 0 {
        return Ok(0);
    }
    match guide_capacity {
        None => Err(InitError::NoGuidePath { vehicles: vehicle_count }),
        Some(capacity) => {
            if vehicle_count > capacity {
                Err(InitError::PopulationOverflow { requested: vehicle_count, capacity })
            } else {
                Ok(vehicle_count)
            }
        },
    }
}

/// Immutable summary of a completed run.
#[derive(Debug, Clone)]
pub struct RunSummary {
    scenario_id: String,
    seed: u64,
    ticks: u64,
    elapsed: Measure,
    spawned: u64,
    despawned: u64,
    dropped: u64,
    remaining: usize,
}

impl RunSummary {
    /// The summary of a run with the given facts.
    pub fn new(
        scenario_id: String,
        seed: u64,
        ticks: u64,
        elapsed: Measure,
        spawned: u64,
        despawned: u64,
        dropped: u64,
        remaining: usize,
    ) -> (r: RunSummary)
        ensures
            r.scenario_id_view() == scenario_id@,
            r.seed_value() == seed,
            r.ticks_value() == ticks,
            r.elapsed_value() == elapsed,
            r.spawned_value() == spawned,
            r.despawned_value() == despawned,
            r.dropped_value() == dropped,
            r.remaining_value() == remaining,
    {
        RunSummary { scenario_id, seed, ticks, elapsed, spawned, despawned, dropped, remaining }
    }

    /// The authored scenario identifier, in specifications.
    pub closed spec fn scenario_id_view(&self) -> Seq<char> {
        self.scenario_id@
    }

    /// The root seed, in specifications.
    pub closed spec fn seed_value(&self) -> u64 {
        self.seed
    }

    /// The completed fixed steps, in specifications.
    pub closed spec fn ticks_value(&self) -> u64 {
        self.ticks
    }

    /// The simulated duration, in specifications.
    pub closed spec fn elapsed_value(&self) -> Measure {
        self.elapsed
    }

    /// The agents spawned over the run, in specifications.
    pub closed spec fn spawned_value(&self) -> u64 {
        self.spawned
    }

    /// The agents despawned over the run, in specifications.
    pub closed spec fn despawned_value(&self) -> u64 {
        self.despawned
    }

    /// The arrivals shed over the run, in specifications.
    pub closed spec fn dropped_value(&self) -> u64 {
        self.dropped
    }

    /// The agents alive at the end, in specifications.
    pub closed spec fn remaining_value(&self) -> usize {
        self.remaining
    }

    /// Authored scenario identifier.
    pub fn scenario_id(&self) -> (r: &str)
        ensures
            r@ == self.scenario_id_view(),
    {
        self.scenario_id.as_str()
    }

    /// Root seed recorded for the run.
    pub fn seed(&self) -> (r: u64)
        ensures
            r == self.seed_value(),
    {
        self.seed
    }

    /// Completed fixed steps.
    pub fn ticks(&self) -> (r: u64)
        ensures
            r == self.ticks_value(),
    {
        self.ticks
    }

    /// Simulated duration in seconds.
    pub fn elapsed(&self) -> (r: Measure)
        ensures
            r == self.elapsed_value(),
    {
        self.elapsed
    }

    /// Agents spawned over the whole run.
    pub fn spawned(&self) -> (r: u64)
        ensures
            r == self.spawned_value(),
    {
        self.spawned
    }

    /// Agents despawned over the whole run.
    pub fn despawned(&self) -> (r: u64)
        ensures
            r == self.despawned_value(),
    {
        self.despawned
    }

    /// Vehicle and pedestrian arrivals shed because a pending queue was full.
    pub fn dropped(&self) -> (r: u64)
        ensures
            r == self.dropped_value(),
    {
        self.dropped
    }

    /// Agents still alive at the end.
    pub fn remaining(&self) -> (r: usize)
        ensures
            r == self.remaining_value(),
    {
        self.remaining
    }
}

/// Diagnostic counters for the representative performance profile.
///
/// They are instrumentation, not simulation state: no decision, event, trace
/// byte, or metric reads them.
#[derive(Debug, Clone, Copy, PartialEq, Eq, Structural)]
pub struct PerformanceCounters {
    /// Candidate bodies the broad-phase queries returned, summed over the run.
    pub broad_phase_candidates: u64,
    /// Tactical-predictor evaluations.
    pub predictions: u64,
    /// Candidate obstacle bodies those predictions considered.
    pub prediction_candidates: u64,
}

impl Default for PerformanceCounters {
    fn default() -> (r: PerformanceCounters)
        ensures
            r == (PerformanceCounters { broad_phase_candidates: 0, predictions: 0, prediction_candidates: 0 }),
    {
        PerformanceCounters { broad_phase_candidates: 0, predictions: 0, prediction_candidates: 0 }
    }
}

/// The vehicle longitudinal model's provenance name.
pub const VEHICLE_MODEL_NAME: &'static str = "idm";

/// The narrow wheeled longitudinal model's provenance name.
pub const NARROW_MODEL_NAME: &'static str = "idm-narrow";

/// The pedestrian model's provenance name.
pub const PEDESTRIAN_MODEL_NAME: &'static str = "waypoint";

/// Names of the motion models a run drives.
///
/// A run manifest records which models produced its trace, so a later model
/// swap cannot be mistaken for a behaviour change.
#[derive(Debug, Clone, Copy, PartialEq, Eq)]
pub struct ControllerModelNames {
    /// The vehicle longitudinal model in use.
    pub vehicle: &'static str,
    /// The narrow wheeled longitudinal model in use.
    pub narrow: &'static str,
    /// The pedestrian model in use.
    pub pedestrian: &'static str,
}

impl ControllerModelNames {
    /// The names of the models every run starts with: the Intelligent Driver
    /// Model for vehicles, the same law under a narrow profile for the narrow
    /// wheeled family, and the waypoint controller for pedestrians.
    pub fn initial() -> (r: ControllerModelNames)
        ensures
            r.vehicle@ == VEHICLE_MODEL_NAME@,
            r.narrow@ == NARROW_MODEL_NAME@,
            r.pedestrian@ == PEDESTRIAN_MODEL_NAME@,
    {
        ControllerModelNames {
            vehicle: VEHICLE_MODEL_NAME,
            narrow: NARROW_MODEL_NAME,
            pedestrian: PEDESTRIAN_MODEL_NAME,
        }
    }
}

/// How much per-agent detail a snapshot carries.
#[derive(Debug, Clone, Copy, PartialEq, Eq, Structural)]
pub enum SnapshotDetail {
    /// Identifier, world position, and heading only.
    Position,
    /// Position plus mode, longitudinal motion, route, profile, and body
    /// dimensions.
    Full,
}

impl Default for SnapshotDetail {
    fn default() -> (r: SnapshotDetail)
        ensures
            r == SnapshotDetail::Position,
    {
        SnapshotDetail::Position
    }
}

} // verus!
