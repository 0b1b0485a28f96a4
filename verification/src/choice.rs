//! The tactical stage's per-step choice: the one maneuver an agent executes
//! this step, chosen from what the query stage observed.
//!
//! A vehicle obeys, in order, a stop line it must hold at, a crossing it must
//! yield to, and a leader it follows; with none of these it flows freely
//! along its route. A pedestrian waits at a signal that tells it to, and
//! otherwise seeks its next waypoint. A longitudinal tactic never claims a
//! lateral maneuver: the chosen tactic carries the agent's own
//! lateral-maneuver state unchanged.

use vstd::prelude::*;

use crate::ids::{AgentId, CrossingId};
use crate::stage::ManeuverState;

verus! {

/// Why an agent executes its tactic this step.
#[derive(Debug, Clone, Copy, PartialEq, Eq, Hash, Structural)]
pub enum TacticReason {
    /// A stop line the vehicle must hold at.
    StopLine,
    /// An occupied crossing the vehicle yields to.
    YieldCrossing,
    /// A leader the vehicle follows.
    Follow,
    /// Nothing constrains the vehicle.
    FreeFlow,
    /// The pedestrian's signal decision is to wait.
    SignalWait,
    /// The pedestrian walks toward its next waypoint.
    SeekWaypoint,
}

/// What the tactic steers toward.
#[derive(Debug, Clone, Copy, PartialEq, Eq, Hash, Structural)]
pub enum TacticTarget {
    /// The governing stop line.
    StopLine,
    /// The crossing yielded to.
    Crossing(CrossingId),
    /// The followed leader.
    Leader(AgentId),
    /// The route itself.
    Route,
    /// The route waypoint at this cursor position.
    Waypoint(usize),
}

/// When the tactic stops applying.
#[derive(Debug, Clone, Copy, PartialEq, Eq, Hash, Structural)]
pub enum AbortCondition {
    /// The constraint that chose it clears.
    ConstraintClears,
    /// The route is complete.
    RouteComplete,
    /// The target waypoint is reached.
    WaypointReached,
}

/// What the query stage observed that the choice reads.
#[derive(Debug, Clone, Copy, PartialEq, Eq, Hash, Structural)]
pub enum Observed {
    /// A vehicle's constraints.
    Vehicle {
        /// Whether a stop line constrains the vehicle.
        stop_line: bool,
        /// The occupied crossing the vehicle yields to, if any.
        crossing_yield: Option<CrossingId>,
        /// The vehicle's leader, if any.
        leader: Option<AgentId>,
    },
    /// A pedestrian's constraints.
    Pedestrian {
        /// Whether the pedestrian's signal decision is to wait.
        waits: bool,
        /// The waypoint ahead, if the route has one.
        target: Option<usize>,
    },
}

/// The one maneuver an agent executes this step.
#[derive(Debug, Clone, Copy, PartialEq, Eq, Hash, Structural)]
pub struct Tactic {
    /// Why the tactic was chosen.
    pub reason: TacticReason,
    /// What it steers toward.
    pub target: TacticTarget,
    /// The agent's own lateral-maneuver state.
    pub maneuver_state: ManeuverState,
    /// When it stops applying.
    pub abort: AbortCondition,
    /// The tick it was chosen at.
    pub started_at: u64,
}

/// The reason, target, and abort condition of the tactic an observation
/// selects.
pub open spec fn selection(observed: Observed) -> (TacticReason, TacticTarget, AbortCondition) {
    match observed {
        Observed::Vehicle { stop_line, crossing_yield, leader } => if stop_line {
            (TacticReason::StopLine, TacticTarget::StopLine, AbortCondition::ConstraintClears)
        } else if crossing_yield is Some {
            (TacticReason::YieldCrossing, TacticTarget::Crossing(crossing_yield->0), AbortCondition::ConstraintClears)
        } else if leader is Some {
            (TacticReason::Follow, TacticTarget::Leader(leader->0), AbortCondition::ConstraintClears)
        } else {
            (TacticReason::FreeFlow, TacticTarget::Route, AbortCondition::RouteComplete)
        },
        Observed::Pedestrian { waits, target } => if waits {
            (
                TacticReason::SignalWait,
                match target {
                    Some(w) => TacticTarget::Waypoint(w),
                    None => TacticTarget::Route,
                },
                AbortCondition::ConstraintClears,
            )
        } else if target is Some {
            (TacticReason::SeekWaypoint, TacticTarget::Waypoint(target->0), AbortCondition::WaypointReached)
        } else {
            (TacticReason::SeekWaypoint, TacticTarget::Route, AbortCondition::RouteComplete)
        },
    }
}

/// Choose the one maneuver an agent executes this step.
///
/// `maneuver_state` is the agent's own lateral-maneuver state (`following`
/// when it holds none), carried unchanged; `now` is the current tick.
pub fn choose_tactic(observed: Observed, maneuver_state: ManeuverState, now: u64) -> (r: Tactic)
    ensures
        (r.reason, r.target, r.abort) == selection(observed),
        r.maneuver_state == maneuver_state,
        r.started_at == now,
{
    let (reason, target, abort) = match observed {
        Observed::Vehicle { stop_line, crossing_yield, leader } => {
            if stop_line {
                (TacticReason::StopLine, TacticTarget::StopLine, AbortCondition::ConstraintClears)
            } else if let Some(crossing) = crossing_yield {
                (TacticReason::YieldCrossing, TacticTarget::Crossing(crossing), AbortCondition::ConstraintClears)
            } else if let Some(leader) = leader {
                (TacticReason::Follow, TacticTarget::Leader(leader), AbortCondition::ConstraintClears)
            } else {
                (TacticReason::FreeFlow, TacticTarget::Route, AbortCondition::RouteComplete)
            }
        },
        Observed::Pedestrian { waits, target } => {
            if waits {
                let aim = match target {
                    Some(w) => TacticTarget::Waypoint(w),
                    None => TacticTarget::Route,
                };
                (TacticReason::SignalWait, aim, AbortCondition::ConstraintClears)
            } else if let Some(w) = target {
                (TacticReason::SeekWaypoint, TacticTarget::Waypoint(w), AbortCondition::WaypointReached)
            } else {
                (TacticReason::SeekWaypoint, TacticTarget::Route, AbortCondition::RouteComplete)
            }
        },
    };
    Tactic { reason, target, maneuver_state, abort, started_at: now }
}

/// A vehicle's tactic obeys the most pressing constraint: a stop line before
/// a crossing yield, a crossing yield before a leader, and a leader before
/// free flow; only a vehicle with no constraint flows freely, and only then
/// does its tactic end with its route.
pub proof fn law_vehicle_constraints_take_precedence(
    stop_line: bool,
    crossing_yield: Option<CrossingId>,
    leader: Option<AgentId>,
)
    ensures
        ({
            let s = selection(Observed::Vehicle { stop_line, crossing_yield, leader });
            &&& stop_line ==> s.0 == TacticReason::StopLine
            &&& (!stop_line && crossing_yield is Some) ==> s.0 == TacticReason::YieldCrossing
            &&& (!stop_line && crossing_yield is None && leader is Some) ==> s.0 == TacticReason::Follow
            &&& s.0 == TacticReason::FreeFlow <==> (!stop_line && crossing_yield is None && leader is None)
            &&& s.2 == AbortCondition::RouteComplete <==> s.0 == TacticReason::FreeFlow
        }),
{
}

/// A pedestrian's tactic never follows a vehicle constraint: it waits at its
/// signal or seeks its waypoint, and a tactic that seeks a waypoint ends when
/// that waypoint is reached.
pub proof fn law_pedestrian_waits_or_seeks(waits: bool, target: Option<usize>)
    ensures
        ({
            let s = selection(Observed::Pedestrian { waits, target });
            &&& s.0 == TacticReason::SignalWait <==> waits
            &&& !waits ==> s.0 == TacticReason::SeekWaypoint
            &&& (s.0 == TacticReason::SeekWaypoint && target is Some) ==> (s.1 == TacticTarget::Waypoint(target->0)
                && s.2 == AbortCondition::WaypointReached)
        }),
{
}

/// Every vehicle tactic chosen for a constraint targets that constraint and
/// ends when it clears: a stop line is held until it clears, a yield targets
/// the yielded crossing, and following targets the leader. Only free flow
/// follows the route to its end.
pub proof fn law_a_constraint_tactic_targets_its_constraint_until_it_clears(
    stop_line: bool,
    crossing_yield: Option<CrossingId>,
    leader: Option<AgentId>,
)
    ensures
        ({
            let s = selection(Observed::Vehicle { stop_line, crossing_yield, leader });
            &&& s.0 != TacticReason::FreeFlow ==> s.2 == AbortCondition::ConstraintClears
            &&& s.0 == TacticReason::FreeFlow ==> s.1 == TacticTarget::Route && s.2 == AbortCondition::RouteComplete
            &&& s.0 == TacticReason::StopLine ==> s.1 == TacticTarget::StopLine
            &&& s.0 == TacticReason::YieldCrossing ==> crossing_yield is Some && s.1 == TacticTarget::Crossing(
                crossing_yield->0,
            )
            &&& s.0 == TacticReason::Follow ==> leader is Some && s.1 == TacticTarget::Leader(leader->0)
            &&& s.0 == TacticReason::StopLine || s.0 == TacticReason::YieldCrossing || s.0 == TacticReason::Follow
                || s.0 == TacticReason::FreeFlow
        }),
{
}

/// A waiting pedestrian holds until its signal constraint clears, aiming at
/// its waypoint ahead when it has one; a walking one seeks that waypoint until
/// it is reached, or follows its route to the end when none is left.
pub proof fn law_a_pedestrian_tactic_ends_with_its_constraint_or_its_target(waits: bool, target: Option<usize>)
    ensures
        ({
            let s = selection(Observed::Pedestrian { waits, target });
            &&& waits ==> s.2 == AbortCondition::ConstraintClears
            &&& !waits && target is Some ==> s.2 == AbortCondition::WaypointReached
            &&& !waits && target is None ==> s.2 == AbortCondition::RouteComplete
            &&& target is Some ==> s.1 == TacticTarget::Waypoint(target->0)
            &&& target is None ==> s.1 == TacticTarget::Route
        }),
{
}

} // verus!
