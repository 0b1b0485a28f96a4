//! The maneuver lifecycle pass: every per-agent decision of a step's maneuver
//! batch, from the tick-start state and the step's measured facts to the next
//! state and the one transition it records.
//!
//! A step runs four phases over one immutable observation of the tick-start
//! state: the attempt (`following -> preparing`), the claim and commitment
//! clauses of `preparing` and `committed`, the settle edges of `returning` and
//! `aborted`, and the decided claim batch (`preparing -> committed`, or the
//! loser's abort). The geometric predicates each clause reads (whether a
//! corridor is feasible, whether the hold timeout has elapsed, whether the
//! passed body is cleared, whether the return offset is reached) are measured
//! outside the library and passed in as facts; the decisions, the state they
//! write, and the transitions they record are verified here. Every recorded
//! transition is an edge of the documented table ([`legal_edge`]) leaving the
//! state the agent was in.

use vstd::prelude::*;

use crate::event::{termination_code, Event, ManeuverReasonCode};
use crate::ids::{AgentId, FacilityId, TacticKind, TacticalCapability};
use crate::measure::{bits_finite, bits_lt_zero, Measure};
use crate::safety::slot_alive;
use crate::stage::{legal_edge, ManeuverAbortReason, ManeuverEdge, ManeuverReason, ManeuverState, PassSide};

verus! {

/// One agent's recorded lateral intent: the target and the obstacle the
/// maneuver displaces around.
#[derive(Debug, Clone, Copy, PartialEq, Eq, Hash, Structural)]
pub struct LateralManeuverRequest {
    /// Target signed offset in metres, in the agent's own travel frame.
    pub target_offset_m: Measure,
    /// The facility the maneuver targets, absent for a same-facility maneuver.
    pub target_facility: Option<FacilityId>,
    /// The body the maneuver displaces around.
    pub passed_body: AgentId,
}

/// The maneuver facts of one agent's route state.
#[derive(Debug, Clone, Copy, PartialEq, Eq, Hash, Structural)]
pub struct ManeuverStatus {
    /// The lifecycle state.
    pub maneuver: ManeuverState,
    /// The facility the agent currently rides.
    pub facility: FacilityId,
    /// The facility the maneuver was attempted from, once a change of lane
    /// has handed the agent off to its destination.
    pub return_facility: Option<FacilityId>,
    /// The recorded intent the next attempt consumes.
    pub intent: Option<LateralManeuverRequest>,
    /// The fixed target offset of the maneuver in flight.
    pub target_offset_m: Option<Measure>,
    /// The fixed target facility of the maneuver in flight.
    pub target_facility: Option<FacilityId>,
    /// The body the maneuver in flight displaces around.
    pub passed_body: Option<AgentId>,
    /// Whether the maneuver in flight holds its fixed candidate corridor.
    pub corridor_fixed: bool,
    /// The predicted minimum swept clearance of the maneuver in flight.
    pub predicted_min_clearance_m: Option<Measure>,
    /// The lateral offset the agent held before the attempt.
    pub pre_maneuver_offset_m: Measure,
    /// The agent's current lateral offset.
    pub d_m: Measure,
    /// The tick the current state was entered.
    pub state_since: Option<u64>,
    /// The tick a committed brake-and-hold began.
    pub hold_since: Option<u64>,
    /// The tick a returning or aborted leg first held its target.
    pub settled_since: Option<u64>,
    /// Whether the committed maneuver brakes and holds.
    pub braking: bool,
    /// Whether the return leg is held by an obstructing body.
    pub return_blocked: bool,
    /// Whether the agent is still on the entry transient of a facility it was
    /// just handed off to.
    pub entering_facility: bool,
    /// The inspectable reason the most recent attempt was rejected.
    pub maneuver_reason: Option<ManeuverReason>,
}

/// One recorded maneuver state change.
#[derive(Debug, Clone, Copy, PartialEq, Eq, Hash, Structural)]
pub struct ManeuverTransition {
    /// The maneuvering agent.
    pub agent: AgentId,
    /// The state the maneuver left.
    pub from: ManeuverState,
    /// The state it entered.
    pub to: ManeuverState,
    /// The documented edge it took.
    pub edge: ManeuverEdge,
    /// The termination reason of an abort edge.
    pub reason: Option<ManeuverAbortReason>,
    /// The tick of the change.
    pub tick: u64,
}

/// One agent's decided next status and the transition it records.
#[derive(Debug, Clone, Copy, PartialEq, Eq, Hash, Structural)]
pub struct ManeuverPlan {
    /// The decided status.
    pub status: ManeuverStatus,
    /// The transition the decision records, if the state changed.
    pub transition: Option<ManeuverTransition>,
}

/// A plan records a legal change of its agent's state, or none at all.
pub open spec fn plan_is_legal(before: ManeuverStatus, plan: ManeuverPlan, agent: AgentId, now: u64) -> bool {
    match plan.transition {
        Some(t) => {
            &&& t.agent == agent
            &&& t.tick == now
            &&& t.from == before.maneuver
            &&& t.to == plan.status.maneuver
            &&& legal_edge(t.from, t.to, t.edge)
            &&& (t.edge == ManeuverEdge::Aborted && t.to == ManeuverState::Aborted) == t.reason.is_some()
        },
        None => plan.status.maneuver == before.maneuver,
    }
}

/// The planned `-> aborted` edge: the maneuver ends without reaching its
/// target, and the agent steers back to the offset it held before.
pub open spec fn abort_plan_of(status: ManeuverStatus, agent: AgentId, reason: ManeuverAbortReason, now: u64) -> ManeuverPlan {
    ManeuverPlan {
        status: ManeuverStatus {
            maneuver: ManeuverState::Aborted,
            state_since: Some(now),
            braking: false,
            hold_since: None,
            settled_since: None,
            ..status
        },
        transition: Some(ManeuverTransition {
            agent,
            from: status.maneuver,
            to: ManeuverState::Aborted,
            edge: ManeuverEdge::Aborted,
            reason: Some(reason),
            tick: now,
        }),
    }
}

/// The planned `-> aborted` edge of one agent.
pub fn abort_plan(status: ManeuverStatus, agent: AgentId, reason: ManeuverAbortReason, now: u64) -> (r: ManeuverPlan)
    requires
        status.maneuver == ManeuverState::Preparing || status.maneuver == ManeuverState::Committed,
    ensures
        r == abort_plan_of(status, agent, reason, now),
        plan_is_legal(status, r, agent, now),
{
    ManeuverPlan {
        status: ManeuverStatus {
            maneuver: ManeuverState::Aborted,
            state_since: Some(now),
            braking: false,
            hold_since: None,
            settled_since: None,
            ..status
        },
        transition: Some(ManeuverTransition {
            agent,
            from: status.maneuver,
            to: ManeuverState::Aborted,
            edge: ManeuverEdge::Aborted,
            reason: Some(reason),
            tick: now,
        }),
    }
}

/// Why a lateral attempt is or is not admissible this step.
#[derive(Debug, Clone, Copy, PartialEq, Eq, Hash, Structural)]
pub enum Attempt {
    /// The target and the candidate corridor are fixed; the maneuver prepares
    /// with the predicted minimum swept clearance over the horizon.
    Admissible {
        /// Predicted minimum swept clearance in metres.
        predicted_clearance_m: Measure,
    },
    /// The passed obstacle has disappeared, so there is nothing to attempt.
    TargetLost,
    /// The candidate corridor is not feasible right now; the intent is kept.
    Infeasible,
    /// A change of lane would enter a traversal the rule does not permit.
    BoundaryForbidden,
}

/// The attempt clause (`following -> preparing`) of one agent holding an
/// intent, or `None` when the agent keeps its intent and retries.
pub open spec fn attempt_plan_of(status: ManeuverStatus, agent: AgentId, attempt: Attempt, now: u64) -> Option<ManeuverPlan> {
    let request = status.intent.unwrap();
    match attempt {
        Attempt::Admissible { predicted_clearance_m } => Some(ManeuverPlan {
            status: ManeuverStatus {
                maneuver: ManeuverState::Preparing,
                target_offset_m: Some(request.target_offset_m),
                target_facility: request.target_facility,
                passed_body: Some(request.passed_body),
                corridor_fixed: true,
                predicted_min_clearance_m: Some(predicted_clearance_m),
                pre_maneuver_offset_m: status.d_m,
                state_since: Some(now),
                intent: None,
                braking: false,
                hold_since: None,
                settled_since: None,
                ..status
            },
            transition: Some(ManeuverTransition {
                agent,
                from: ManeuverState::Following,
                to: ManeuverState::Preparing,
                edge: ManeuverEdge::Attempted,
                reason: None,
                tick: now,
            }),
        }),
        Attempt::TargetLost => Some(ManeuverPlan {
            status: ManeuverStatus { intent: None, ..status },
            transition: None,
        }),
        Attempt::BoundaryForbidden => Some(ManeuverPlan {
            status: ManeuverStatus {
                intent: None,
                maneuver_reason: Some(ManeuverReason::BoundaryForbidden),
                ..status
            },
            transition: None,
        }),
        Attempt::Infeasible => None,
    }
}

/// The attempt clause of one following agent that holds an intent.
///
/// An admissible intent fixes the target and corridor and is consumed; an
/// intent whose passed obstacle disappeared is discarded with no transition;
/// a forbidden boundary discards the intent and records the inspectable
/// `boundary_forbidden` reason; an infeasible corridor keeps the intent, so
/// the agent retries at the next decision.
pub fn attempt_plan(status: ManeuverStatus, agent: AgentId, attempt: Attempt, now: u64) -> (r: Option<ManeuverPlan>)
    requires
        status.maneuver == ManeuverState::Following,
        status.intent.is_some(),
    ensures
        r == attempt_plan_of(status, agent, attempt, now),
        r matches Some(plan) ==> plan_is_legal(status, plan, agent, now),
{
    let request = status.intent.unwrap();
    match attempt {
        Attempt::Admissible { predicted_clearance_m } => Some(ManeuverPlan {
            status: ManeuverStatus {
                maneuver: ManeuverState::Preparing,
                target_offset_m: Some(request.target_offset_m),
                target_facility: request.target_facility,
                passed_body: Some(request.passed_body),
                corridor_fixed: true,
                predicted_min_clearance_m: Some(predicted_clearance_m),
                pre_maneuver_offset_m: status.d_m,
                state_since: Some(now),
                intent: None,
                braking: false,
                hold_since: None,
                settled_since: None,
                ..status
            },
            transition: Some(ManeuverTransition {
                agent,
                from: ManeuverState::Following,
                to: ManeuverState::Preparing,
                edge: ManeuverEdge::Attempted,
                reason: None,
                tick: now,
            }),
        }),
        Attempt::TargetLost => Some(ManeuverPlan {
            status: ManeuverStatus { intent: None, ..status },
            transition: None,
        }),
        Attempt::BoundaryForbidden => Some(ManeuverPlan {
            status: ManeuverStatus {
                intent: None,
                maneuver_reason: Some(ManeuverReason::BoundaryForbidden),
                ..status
            },
            transition: None,
        }),
        Attempt::Infeasible => None,
    }
}

/// The measured facts the claim clause of a `preparing` maneuver reads.
#[derive(Debug, Clone, Copy, PartialEq, Eq, Hash, Structural)]
pub struct PreparingFacts {
    /// Whether the passed body is a live agent.
    pub passed_alive: bool,
    /// Whether the hold timeout has elapsed since the state was entered.
    pub hold_elapsed: bool,
    /// Whether the maneuver's prediction toward its target is feasible.
    pub prediction_feasible: bool,
}

/// The claim clause's decision for one `preparing` maneuver.
#[derive(Debug, Clone, Copy, PartialEq, Eq, Hash, Structural)]
pub enum PreparingDecision {
    /// The maneuver prepared this decision; it claims at the next one.
    Wait,
    /// The maneuver aborts.
    Abort(ManeuverPlan),
    /// The maneuver submits its corridor claim to this step's batch.
    Claim,
}

/// Whether a maneuver that entered its state at `since` is due to decide at
/// tick `now`: it prepares for one decision and claims at the next.
pub open spec fn due_at(since: Option<u64>, now: u64) -> bool {
    match since {
        Some(t) => t < now,
        None => false,
    }
}

/// The claim clause of one `preparing` maneuver.
pub open spec fn preparing_decision_of(
    status: ManeuverStatus,
    agent: AgentId,
    facts: PreparingFacts,
    now: u64,
) -> PreparingDecision {
    if !due_at(status.state_since, now) {
        PreparingDecision::Wait
    } else if !status.corridor_fixed {
        PreparingDecision::Abort(abort_plan_of(status, agent, ManeuverAbortReason::CorridorInfeasible, now))
    } else if status.passed_body.is_none() || !facts.passed_alive {
        PreparingDecision::Abort(abort_plan_of(status, agent, ManeuverAbortReason::TargetLost, now))
    } else if facts.hold_elapsed {
        PreparingDecision::Abort(abort_plan_of(status, agent, ManeuverAbortReason::HoldTimeout, now))
    } else if status.target_offset_m.is_none() || !facts.prediction_feasible {
        PreparingDecision::Abort(abort_plan_of(status, agent, ManeuverAbortReason::CorridorInfeasible, now))
    } else {
        PreparingDecision::Claim
    }
}

/// The claim clause of one `preparing` maneuver: it seeks its claim at the
/// decision after the attempt, and aborts on a missing corridor, a lost
/// target, an elapsed hold timeout, or an infeasible corridor, in that order.
pub fn preparing_decision(status: ManeuverStatus, agent: AgentId, facts: PreparingFacts, now: u64) -> (r: PreparingDecision)
    requires
        status.maneuver == ManeuverState::Preparing,
    ensures
        r == preparing_decision_of(status, agent, facts, now),
        r matches PreparingDecision::Abort(plan) ==> plan_is_legal(status, plan, agent, now),
{
    let due = match status.state_since {
        Some(since) => since < now,
        None => false,
    };
    if !due {
        return PreparingDecision::Wait;
    }
    if !status.corridor_fixed {
        return PreparingDecision::Abort(abort_plan(status, agent, ManeuverAbortReason::CorridorInfeasible, now));
    }
    if status.passed_body.is_none() || !facts.passed_alive {
        return PreparingDecision::Abort(abort_plan(status, agent, ManeuverAbortReason::TargetLost, now));
    }
    if facts.hold_elapsed {
        return PreparingDecision::Abort(abort_plan(status, agent, ManeuverAbortReason::HoldTimeout, now));
    }
    if status.target_offset_m.is_none() || !facts.prediction_feasible {
        return PreparingDecision::Abort(abort_plan(status, agent, ManeuverAbortReason::CorridorInfeasible, now));
    }
    PreparingDecision::Claim
}

/// One committed leg's prediction: the predicted swept clearance and the
/// comparisons the commitment-loss policy reads.
#[derive(Debug, Clone, Copy, PartialEq, Eq, Hash, Structural)]
pub struct LegPrediction {
    /// Predicted minimum swept clearance in metres.
    pub swept_clearance_m: Measure,
    /// Whether the predicted motion is feasible.
    pub feasible: bool,
    /// Whether the swept clearance is below the commit policy's minimum.
    pub below_policy_minimum: bool,
    /// Whether the swept clearance is at or below the mode's target clearance.
    pub within_target_clearance: bool,
}

/// The measured facts the commitment clause of a `committed` maneuver reads.
#[derive(Debug, Clone, Copy, PartialEq, Eq, Hash, Structural)]
pub struct CommittedFacts {
    /// Whether the passed body is a live agent.
    pub passed_alive: bool,
    /// The leg's prediction; `None` when no prediction exists for the leg.
    pub prediction: Option<LegPrediction>,
    /// Whether the agent's rear is clear of the passed body by the target
    /// clearance.
    pub passed_cleared: bool,
    /// Whether the hold timeout has elapsed since the hold began (or since
    /// this decision, for a hold that begins now).
    pub hold_elapsed: bool,
}

/// The commitment clause of one `committed` maneuver.
pub open spec fn committed_plan_of(status: ManeuverStatus, agent: AgentId, facts: CommittedFacts, now: u64) -> ManeuverPlan {
    if status.passed_body.is_none() || !facts.passed_alive {
        abort_plan_of(status, agent, ManeuverAbortReason::TargetLost, now)
    } else if status.target_offset_m.is_none() {
        abort_plan_of(status, agent, ManeuverAbortReason::CorridorInfeasible, now)
    } else if !status.entering_facility && facts.prediction.is_none() {
        abort_plan_of(status, agent, ManeuverAbortReason::CorridorInfeasible, now)
    } else {
        let prediction = if status.entering_facility { None } else { facts.prediction };
        if facts.passed_cleared {
            ManeuverPlan {
                status: ManeuverStatus {
                    maneuver: ManeuverState::Returning,
                    predicted_min_clearance_m: match prediction {
                        Some(p) => Some(p.swept_clearance_m),
                        None => None,
                    },
                    state_since: Some(now),
                    braking: false,
                    hold_since: None,
                    settled_since: None,
                    ..status
                },
                transition: Some(ManeuverTransition {
                    agent,
                    from: ManeuverState::Committed,
                    to: ManeuverState::Returning,
                    edge: ManeuverEdge::Completed,
                    reason: None,
                    tick: now,
                }),
            }
        } else {
            match prediction {
                None => ManeuverPlan { status, transition: None },
                Some(p) => if p.below_policy_minimum {
                    abort_plan_of(status, agent, ManeuverAbortReason::ClearanceLost, now)
                } else if !p.feasible || p.within_target_clearance {
                    if facts.hold_elapsed {
                        abort_plan_of(status, agent, ManeuverAbortReason::HoldTimeout, now)
                    } else {
                        ManeuverPlan {
                            status: ManeuverStatus {
                                predicted_min_clearance_m: Some(p.swept_clearance_m),
                                braking: true,
                                hold_since: Some(
                                    match status.hold_since {
                                        Some(t) => t,
                                        None => now,
                                    },
                                ),
                                ..status
                            },
                            transition: None,
                        }
                    }
                } else {
                    ManeuverPlan {
                        status: ManeuverStatus {
                            predicted_min_clearance_m: Some(p.swept_clearance_m),
                            braking: false,
                            hold_since: None,
                            ..status
                        },
                        transition: None,
                    }
                },
            }
        }
    }
}

/// The commitment clause of one `committed` maneuver.
///
/// A lost target aborts. A leg with no prediction aborts, except the entry
/// transient of a just-entered destination, which holds. A cleared passed body
/// completes into `returning`. Otherwise the ordered unsafe-commit response
/// applies: a swept clearance below the policy minimum aborts; an infeasible
/// leg or one at or below the target clearance brakes and holds, and aborts
/// once the hold timeout elapses; anything else continues and clears the hold.
/// An existing commitment is never revoked by another agent's claim.
pub fn committed_plan(status: ManeuverStatus, agent: AgentId, facts: CommittedFacts, now: u64) -> (r: ManeuverPlan)
    requires
        status.maneuver == ManeuverState::Committed,
    ensures
        r == committed_plan_of(status, agent, facts, now),
        plan_is_legal(status, r, agent, now),
{
    if status.passed_body.is_none() || !facts.passed_alive {
        return abort_plan(status, agent, ManeuverAbortReason::TargetLost, now);
    }
    if status.target_offset_m.is_none() {
        return abort_plan(status, agent, ManeuverAbortReason::CorridorInfeasible, now);
    }
    if !status.entering_facility && facts.prediction.is_none() {
        return abort_plan(status, agent, ManeuverAbortReason::CorridorInfeasible, now);
    }
    let prediction = if status.entering_facility {
        None
    } else {
        facts.prediction
    };
    if facts.passed_cleared {
        return ManeuverPlan {
            status: ManeuverStatus {
                maneuver: ManeuverState::Returning,
                predicted_min_clearance_m: match prediction {
                    Some(p) => Some(p.swept_clearance_m),
                    None => None,
                },
                state_since: Some(now),
                braking: false,
                hold_since: None,
                settled_since: None,
                ..status
            },
            transition: Some(ManeuverTransition {
                agent,
                from: ManeuverState::Committed,
                to: ManeuverState::Returning,
                edge: ManeuverEdge::Completed,
                reason: None,
                tick: now,
            }),
        };
    }
    match prediction {
        None => ManeuverPlan { status, transition: None },
        Some(p) => {
            if p.below_policy_minimum {
                return abort_plan(status, agent, ManeuverAbortReason::ClearanceLost, now);
            }
            if !p.feasible || p.within_target_clearance {
                if facts.hold_elapsed {
                    return abort_plan(status, agent, ManeuverAbortReason::HoldTimeout, now);
                }
                let since = match status.hold_since {
                    Some(t) => t,
                    None => now,
                };
                return ManeuverPlan {
                    status: ManeuverStatus {
                        predicted_min_clearance_m: Some(p.swept_clearance_m),
                        braking: true,
                        hold_since: Some(since),
                        ..status
                    },
                    transition: None,
                };
            }
            ManeuverPlan {
                status: ManeuverStatus {
                    predicted_min_clearance_m: Some(p.swept_clearance_m),
                    braking: false,
                    hold_since: None,
                    ..status
                },
                transition: None,
            }
        },
    }
}

/// The settle clause of one `returning` or `aborted` maneuver.
pub open spec fn settle_plan_of(
    status: ManeuverStatus,
    agent: AgentId,
    at_target: bool,
    return_obstructed: bool,
    now: u64,
) -> ManeuverPlan {
    if !at_target {
        ManeuverPlan {
            status: ManeuverStatus { return_blocked: return_obstructed, settled_since: None, ..status },
            transition: None,
        }
    } else {
        let since = match status.settled_since {
            Some(t) => t,
            None => now,
        };
        if since >= now {
            ManeuverPlan {
                status: ManeuverStatus { return_blocked: false, settled_since: Some(since), ..status },
                transition: None,
            }
        } else {
            ManeuverPlan {
                status: ManeuverStatus {
                    maneuver: ManeuverState::Following,
                    target_offset_m: None,
                    target_facility: None,
                    predicted_min_clearance_m: None,
                    corridor_fixed: false,
                    passed_body: None,
                    state_since: None,
                    braking: false,
                    return_blocked: false,
                    hold_since: None,
                    settled_since: None,
                    ..status
                },
                transition: Some(ManeuverTransition {
                    agent,
                    from: status.maneuver,
                    to: ManeuverState::Following,
                    edge: if status.maneuver == ManeuverState::Returning {
                        ManeuverEdge::Completed
                    } else {
                        ManeuverEdge::Aborted
                    },
                    reason: None,
                    tick: now,
                }),
            }
        }
    }
}

/// The settle clause of one `returning` or `aborted` maneuver.
///
/// A leg that has not reached the offset it returns to keeps steering, and
/// holds while its return is obstructed; a leg at its offset settles only once
/// that offset has held for a whole decision, and then returns to
/// `following` with every maneuver fact cleared.
pub fn settle_plan(status: ManeuverStatus, agent: AgentId, at_target: bool, return_obstructed: bool, now: u64) -> (r: ManeuverPlan)
    requires
        status.maneuver == ManeuverState::Returning || status.maneuver == ManeuverState::Aborted,
    ensures
        r == settle_plan_of(status, agent, at_target, return_obstructed, now),
        plan_is_legal(status, r, agent, now),
{
    if !at_target {
        return ManeuverPlan {
            status: ManeuverStatus { return_blocked: return_obstructed, settled_since: None, ..status },
            transition: None,
        };
    }
    let since = match status.settled_since {
        Some(t) => t,
        None => now,
    };
    if since >= now {
        return ManeuverPlan {
            status: ManeuverStatus { return_blocked: false, settled_since: Some(since), ..status },
            transition: None,
        };
    }
    let edge = if status.maneuver == ManeuverState::Returning {
        ManeuverEdge::Completed
    } else {
        ManeuverEdge::Aborted
    };
    ManeuverPlan {
        status: ManeuverStatus {
            maneuver: ManeuverState::Following,
            target_offset_m: None,
            target_facility: None,
            predicted_min_clearance_m: None,
            corridor_fixed: false,
            passed_body: None,
            state_since: None,
            braking: false,
            return_blocked: false,
            hold_since: None,
            settled_since: None,
            ..status
        },
        transition: Some(ManeuverTransition {
            agent,
            from: status.maneuver,
            to: ManeuverState::Following,
            edge,
            reason: None,
            tick: now,
        }),
    }
}

/// The decided claim of one `preparing` maneuver: a granted claim commits, a
/// rejected one aborts with `claim_rejected`.
pub open spec fn claim_plan_of(status: ManeuverStatus, agent: AgentId, granted: bool, now: u64) -> ManeuverPlan {
    if granted {
        ManeuverPlan {
            status: ManeuverStatus {
                maneuver: ManeuverState::Committed,
                state_since: Some(now),
                braking: false,
                hold_since: None,
                ..status
            },
            transition: Some(ManeuverTransition {
                agent,
                from: ManeuverState::Preparing,
                to: ManeuverState::Committed,
                edge: ManeuverEdge::Committed,
                reason: None,
                tick: now,
            }),
        }
    } else {
        abort_plan_of(status, agent, ManeuverAbortReason::ClaimRejected, now)
    }
}

/// The decided claim of one `preparing` maneuver.
pub fn claim_plan(status: ManeuverStatus, agent: AgentId, granted: bool, now: u64) -> (r: ManeuverPlan)
    requires
        status.maneuver == ManeuverState::Preparing,
    ensures
        r == claim_plan_of(status, agent, granted, now),
        plan_is_legal(status, r, agent, now),
{
    if granted {
        ManeuverPlan {
            status: ManeuverStatus {
                maneuver: ManeuverState::Committed,
                state_since: Some(now),
                braking: false,
                hold_since: None,
                ..status
            },
            transition: Some(ManeuverTransition {
                agent,
                from: ManeuverState::Preparing,
                to: ManeuverState::Committed,
                edge: ManeuverEdge::Committed,
                reason: None,
                tick: now,
            }),
        }
    } else {
        abort_plan(status, agent, ManeuverAbortReason::ClaimRejected, now)
    }
}

/// The tactic a recorded lateral maneuver belongs to: a cross-facility
/// `change_lane` when it targets or has left another facility, otherwise
/// `pass` for a mode that compiles the `pass` capability and `overtake`
/// otherwise.
pub open spec fn maneuver_kind_of(status: ManeuverStatus, supports_pass: bool) -> TacticKind {
    if status.target_facility.is_some() || status.return_facility.is_some() {
        TacticKind::ChangeLane
    } else if supports_pass {
        TacticKind::Pass
    } else {
        TacticKind::Overtake
    }
}

/// The tactic a recorded lateral maneuver belongs to.
pub fn maneuver_kind(status: ManeuverStatus, supports_pass: bool) -> (r: TacticKind)
    ensures
        r == maneuver_kind_of(status, supports_pass),
{
    if status.target_facility.is_some() || status.return_facility.is_some() {
        return TacticKind::ChangeLane;
    }
    if supports_pass {
        TacticKind::Pass
    } else {
        TacticKind::Overtake
    }
}

/// The reason an edge's record carries: the termination code of an abort,
/// `settled` on a completing edge without one, and `slower_leader` on the
/// attempt and commit edges.
pub open spec fn transition_reason_of(t: ManeuverTransition) -> ManeuverReasonCode {
    match t.reason {
        Some(r) => termination_code(r),
        None => if t.edge == ManeuverEdge::Completed {
            ManeuverReasonCode::Settled
        } else {
            ManeuverReasonCode::SlowerLeader
        },
    }
}

/// The [`Event::Maneuver`] record of one recorded state change, reading the
/// maneuver's facts from `facts`.
pub open spec fn maneuver_event_of(t: ManeuverTransition, facts: ManeuverStatus, supports_pass: bool) -> Event {
    let target_offset_m = match facts.target_offset_m {
        Some(m) => m,
        None => Measure { bits: 0 },
    };
    Event::Maneuver {
        agent: t.agent,
        kind: maneuver_kind_of(facts, supports_pass),
        from: t.from,
        to: t.to,
        edge: t.edge,
        partner: facts.passed_body,
        source_facility: match facts.return_facility {
            Some(f) => f,
            None => facts.facility,
        },
        target_facility: facts.target_facility,
        target_offset_m,
        side: if bits_lt_zero(target_offset_m.bits) { PassSide::Right } else { PassSide::Left },
        reason: transition_reason_of(t),
    }
}

/// The `Maneuver` event of one recorded state change.
///
/// The edge, its two states, its agent, and its reason are the recorded
/// transition's own; the other facts are read from the status that carries
/// them and fall back to the payload's absent values when the maneuver has no
/// fixed target: no partner, no target facility, a zero offset, and the left
/// side. The source facility is the traversal the maneuver was attempted on.
pub fn maneuver_event(t: ManeuverTransition, facts: ManeuverStatus, supports_pass: bool) -> (r: Event)
    ensures
        r == maneuver_event_of(t, facts, supports_pass),
{
    let target_offset_m = match facts.target_offset_m {
        Some(m) => m,
        None => Measure::zero(),
    };
    let reason = match t.reason {
        Some(r) => ManeuverReasonCode::from_termination(r),
        None => if t.edge == ManeuverEdge::Completed {
            ManeuverReasonCode::Settled
        } else {
            ManeuverReasonCode::SlowerLeader
        },
    };
    Event::Maneuver {
        agent: t.agent,
        kind: maneuver_kind(facts, supports_pass),
        from: t.from,
        to: t.to,
        edge: t.edge,
        partner: facts.passed_body,
        source_facility: match facts.return_facility {
            Some(f) => f,
            None => facts.facility,
        },
        target_facility: facts.target_facility,
        target_offset_m,
        side: if target_offset_m.is_negative() {
            PassSide::Right
        } else {
            PassSide::Left
        },
        reason,
    }
}

/// The status a transition's record reads its facts from: the entered
/// status when it carries a fixed target, otherwise the status it left.
pub open spec fn event_facts_of(left: ManeuverStatus, entered: ManeuverStatus) -> ManeuverStatus {
    if entered.target_offset_m.is_some() { entered } else { left }
}

/// Whether one of the first `k` plans records the transition `t`.
pub open spec fn planned(plans: Seq<(usize, ManeuverPlan)>, k: int, t: ManeuverTransition) -> bool {
    exists|m: int| #![trigger plans[m]] 0 <= m < k && plans[m].1.transition == Some(t)
}

/// Whether a record is the `Maneuver` record of a transition: the same agent,
/// states, and edge.
pub open spec fn records_transition(e: Event, t: ManeuverTransition) -> bool {
    match e {
        Event::Maneuver { agent, from, to, edge, .. } => agent == t.agent && from == t.from && to == t.to
            && edge == t.edge,
        _ => false,
    }
}

/// The statuses after the first `k` plans are applied in order: each plan
/// replaces its agent's status with its decided one.
pub open spec fn applied(
    statuses: Seq<Option<ManeuverStatus>>,
    plans: Seq<(usize, ManeuverPlan)>,
    k: int,
) -> Seq<Option<ManeuverStatus>>
    decreases k,
{
    if k <= 0 {
        statuses
    } else {
        applied(statuses, plans, k - 1).update(plans[k - 1].0 as int, Some(plans[k - 1].1.status))
    }
}

/// The transitions the first `k` plans record, in plan order.
pub open spec fn recorded_transitions(plans: Seq<(usize, ManeuverPlan)>, k: int) -> Seq<ManeuverTransition>
    decreases k,
{
    if k <= 0 {
        Seq::empty()
    } else {
        match plans[k - 1].1.transition {
            Some(t) => recorded_transitions(plans, k - 1).push(t),
            None => recorded_transitions(plans, k - 1),
        }
    }
}

/// The `Maneuver` records of the first `k` plans, in plan order: one for each
/// recorded transition, reading its facts from the agent's status before the
/// plan and the status the plan enters.
pub open spec fn recorded_events(
    statuses: Seq<Option<ManeuverStatus>>,
    plans: Seq<(usize, ManeuverPlan)>,
    supports_pass: Seq<bool>,
    k: int,
) -> Seq<Event>
    decreases k,
{
    if k <= 0 {
        Seq::empty()
    } else {
        let (index, plan) = plans[k - 1];
        match plan.transition {
            Some(t) => recorded_events(statuses, plans, supports_pass, k - 1).push(
                maneuver_event_of(
                    t,
                    event_facts_of(applied(statuses, plans, k - 1)[index as int]->0, plan.status),
                    supports_pass[index as int],
                ),
            ),
            None => recorded_events(statuses, plans, supports_pass, k - 1),
        }
    }
}

/// Apply one step's decided plans, in decision order: each plan replaces its
/// agent's status, and each recorded transition is appended once, with exactly
/// one [`Event::Maneuver`] record for it.
///
/// Nothing in the batch read a status another decision wrote, so the result is
/// a pure function of the tick-start observation and the decisions.
#[verifier::rlimit(80)]
pub fn apply_plans(
    statuses: &mut Vec<Option<ManeuverStatus>>,
    plans: &Vec<(usize, ManeuverPlan)>,
    supports_pass: &Vec<bool>,
    transitions: &mut Vec<ManeuverTransition>,
    events: &mut Vec<Event>,
)
    requires
        supports_pass@.len() == old(statuses)@.len(),
        forall|k: int| 0 <= k < plans@.len() ==> #[trigger] plans@[k].0 < old(statuses)@.len()
            && old(statuses)@[plans@[k].0 as int].is_some(),
    ensures
        final(statuses)@.len() == old(statuses)@.len(),
        forall|i: int| 0 <= i < final(statuses)@.len() && (forall|k: int| 0 <= k < plans@.len() ==> #[trigger] plans@[k].0 != i)
            ==> final(statuses)@[i] == old(statuses)@[i],
        forall|k: int| 0 <= k < plans@.len() && (forall|l: int| k < l < plans@.len() ==> #[trigger] plans@[l].0 != plans@[k].0)
            ==> final(statuses)@[#[trigger] plans@[k].0 as int] == Some(plans@[k].1.status),
        final(transitions)@.len() - old(transitions)@.len() == final(events)@.len() - old(events)@.len(),
        forall|j: int| old(transitions)@.len() <= j < final(transitions)@.len() ==> planned(
            plans@,
            plans@.len() as int,
            #[trigger] final(transitions)@[j],
        ),
        forall|j: int| 0 <= j < final(transitions)@.len() - old(transitions)@.len() ==> records_transition(
            #[trigger] final(events)@[old(events)@.len() + j],
            final(transitions)@[old(transitions)@.len() + j],
        ),
        final(statuses)@ == applied(old(statuses)@, plans@, plans@.len() as int),
        final(transitions)@ == old(transitions)@ + recorded_transitions(plans@, plans@.len() as int),
        final(events)@ == old(events)@ + recorded_events(old(statuses)@, plans@, supports_pass@, plans@.len() as int),
{
    let ghost start_statuses = statuses@;
    let ghost start_transitions = transitions@;
    let ghost start_events = events@;
    let mut k: usize = 0;
    while k < plans.len()
        invariant
            k <= plans@.len(),
            statuses@.len() == old(statuses)@.len(),
            supports_pass@.len() == old(statuses)@.len(),
            forall|m: int| 0 <= m < plans@.len() ==> #[trigger] plans@[m].0 < old(statuses)@.len()
                && old(statuses)@[plans@[m].0 as int].is_some(),
            forall|i: int| 0 <= i < statuses@.len() ==> (#[trigger] statuses@[i]).is_some() == old(statuses)@[i].is_some(),
            forall|i: int| 0 <= i < statuses@.len() && (forall|m: int| 0 <= m < k ==> #[trigger] plans@[m].0 != i)
                ==> statuses@[i] == old(statuses)@[i],
            forall|m: int| 0 <= m < k && (forall|l: int| m < l < k ==> #[trigger] plans@[l].0 != plans@[m].0)
                ==> statuses@[#[trigger] plans@[m].0 as int] == Some(plans@[m].1.status),
            transitions@.len() - old(transitions)@.len() == events@.len() - old(events)@.len(),
            transitions@.len() >= old(transitions)@.len(),
            forall|j: int| old(transitions)@.len() <= j < transitions@.len() ==> planned(
                plans@,
                k as int,
                #[trigger] transitions@[j],
            ),
            forall|j: int| 0 <= j < transitions@.len() - old(transitions)@.len() ==> records_transition(
                #[trigger] events@[old(events)@.len() + j],
                transitions@[old(transitions)@.len() + j],
            ),
            start_statuses == old(statuses)@,
            start_transitions == old(transitions)@,
            start_events == old(events)@,
            statuses@ == applied(start_statuses, plans@, k as int),
            transitions@ == start_transitions + recorded_transitions(plans@, k as int),
            events@ == start_events + recorded_events(start_statuses, plans@, supports_pass@, k as int),
        decreases plans.len() - k,
    {
        let (index, plan) = plans[k];
        let left = statuses[index].unwrap();
        statuses.set(index, Some(plan.status));
        match plan.transition {
            Some(transition) => {
                let facts = if plan.status.target_offset_m.is_some() {
                    plan.status
                } else {
                    left
                };
                transitions.push(transition);
                events.push(maneuver_event(transition, facts, supports_pass[index]));
            },
            None => {},
        }
        proof {
            assert forall|j: int| old(transitions)@.len() <= j < transitions@.len() implies planned(
                plans@,
                k + 1,
                #[trigger] transitions@[j],
            ) by {
                if j == transitions@.len() - 1 && plan.transition.is_some() {
                    assert(plans@[k as int].1.transition == Some(transitions@[j]));
                } else {
                    let m = choose|m: int| #![trigger plans@[m]] 0 <= m < k && plans@[m].1.transition == Some(transitions@[j]);
                    assert(0 <= m < k + 1 && plans@[m].1.transition == Some(transitions@[j]));
                }
            }
            assert(statuses@ =~= applied(start_statuses, plans@, k + 1));
            assert(transitions@ =~= start_transitions + recorded_transitions(plans@, k + 1));
            assert(events@ =~= start_events + recorded_events(start_statuses, plans@, supports_pass@, k + 1));
        }
        k = k + 1;
    }
}

/// One agent's measured facts for a step's maneuver decisions; each clause
/// reads only the facts of the state the agent is in.
#[derive(Debug, Clone, Copy, PartialEq, Eq, Hash, Structural)]
pub struct StepFacts {
    /// Whether the slot holds a live agent.
    pub alive: bool,
    /// The attempt clause's admissibility, for a following agent with an
    /// intent.
    pub attempt: Attempt,
    /// The claim clause's facts, for a preparing agent.
    pub preparing: PreparingFacts,
    /// The commitment clause's facts, for a committed agent.
    pub committed: CommittedFacts,
    /// Whether a returning or aborted agent sits at its return offset.
    pub at_target: bool,
    /// Whether a returning or aborted agent's return leg is obstructed.
    pub return_obstructed: bool,
}

/// One decided corridor claim of the step's batch.
#[derive(Debug, Clone, Copy, PartialEq, Eq, Hash, Structural)]
pub struct ClaimOutcome {
    /// The claimant.
    pub agent: AgentId,
    /// Whether the claim was granted.
    pub granted: bool,
}

/// The attempt-phase plan of one agent, if it decides one.
pub open spec fn attempt_phase_plan(s: Option<ManeuverStatus>, f: StepFacts, i: int, now: u64) -> Option<ManeuverPlan> {
    match s {
        Some(st) => if f.alive && st.maneuver == ManeuverState::Following && st.intent.is_some() {
            attempt_plan_of(st, AgentId::at(i), f.attempt, now)
        } else {
            None
        },
        None => None,
    }
}

/// The claim- and commitment-phase plan of one agent, if it decides one.
pub open spec fn claim_phase_plan(s: Option<ManeuverStatus>, f: StepFacts, i: int, now: u64) -> Option<ManeuverPlan> {
    match s {
        Some(st) => if !f.alive {
            None
        } else if st.maneuver == ManeuverState::Preparing {
            match preparing_decision_of(st, AgentId::at(i), f.preparing, now) {
                PreparingDecision::Abort(plan) => Some(plan),
                _ => None,
            }
        } else if st.maneuver == ManeuverState::Committed {
            if !st.corridor_fixed {
                Some(abort_plan_of(st, AgentId::at(i), ManeuverAbortReason::CorridorInfeasible, now))
            } else {
                Some(committed_plan_of(st, AgentId::at(i), f.committed, now))
            }
        } else {
            None
        },
        None => None,
    }
}

/// The settle-phase plan of one agent, if it decides one.
pub open spec fn settle_phase_plan(s: Option<ManeuverStatus>, f: StepFacts, i: int, now: u64) -> Option<ManeuverPlan> {
    match s {
        Some(st) => if f.alive && (st.maneuver == ManeuverState::Returning || st.maneuver == ManeuverState::Aborted) {
            Some(settle_plan_of(st, AgentId::at(i), f.at_target, f.return_obstructed, now))
        } else {
            None
        },
        None => None,
    }
}

/// Which per-agent phase a plan list is built from.
pub enum Phase {
    /// The attempt clause of following agents holding an intent.
    Attempt,
    /// The claim clause of preparing agents and the commitment clause of
    /// committed ones.
    Claim,
    /// The settle edges of returning and aborted agents.
    Settle,
}

/// The plan one phase decides for one agent.
pub open spec fn phase_plan(phase: Phase, s: Option<ManeuverStatus>, f: StepFacts, i: int, now: u64) -> Option<ManeuverPlan> {
    match phase {
        Phase::Attempt => attempt_phase_plan(s, f, i, now),
        Phase::Claim => claim_phase_plan(s, f, i, now),
        Phase::Settle => settle_phase_plan(s, f, i, now),
    }
}

/// One phase's plans over the first `n` agents, in ascending agent order.
pub open spec fn phase_plans(phase: Phase, statuses: Seq<Option<ManeuverStatus>>, facts: Seq<StepFacts>, now: u64, n: int) -> Seq<
    (usize, ManeuverPlan),
>
    decreases n,
{
    if n <= 0 {
        Seq::<(usize, ManeuverPlan)>::empty()
    } else {
        let rest = phase_plans(phase, statuses, facts, now, n - 1);
        match phase_plan(phase, statuses[n - 1], facts[n - 1], n - 1, now) {
            Some(plan) => rest.push(((n - 1) as usize, plan)),
            None => rest,
        }
    }
}

/// The plan a decided claim gives its claimant, if the claimant is preparing.
pub open spec fn batch_outcome_plan(statuses: Seq<Option<ManeuverStatus>>, o: ClaimOutcome, now: u64) -> Option<
    (usize, ManeuverPlan),
> {
    let i = o.agent.value() as int;
    if i < statuses.len() {
        match statuses[i] {
            Some(st) => if st.maneuver == ManeuverState::Preparing {
                Some((i as usize, claim_plan_of(st, o.agent, o.granted, now)))
            } else {
                None
            },
            None => None,
        }
    } else {
        None
    }
}

/// The plans of the first `n` decided claims, in decision order.
pub open spec fn outcome_plans(statuses: Seq<Option<ManeuverStatus>>, outcomes: Seq<ClaimOutcome>, now: u64, n: int) -> Seq<
    (usize, ManeuverPlan),
>
    decreases n,
{
    if n <= 0 {
        Seq::<(usize, ManeuverPlan)>::empty()
    } else {
        let rest = outcome_plans(statuses, outcomes, now, n - 1);
        match batch_outcome_plan(statuses, outcomes[n - 1], now) {
            Some(entry) => rest.push(entry),
            None => rest,
        }
    }
}

/// A step's maneuver plans in phase order: the attempts of every agent in
/// ascending id order, then the claim and commitment clauses, then the settle
/// edges, then the decided claim batch.
pub open spec fn batch_plans(
    statuses: Seq<Option<ManeuverStatus>>,
    facts: Seq<StepFacts>,
    outcomes: Seq<ClaimOutcome>,
    now: u64,
) -> Seq<(usize, ManeuverPlan)> {
    phase_plans(Phase::Attempt, statuses, facts, now, statuses.len() as int) + phase_plans(
        Phase::Claim,
        statuses,
        facts,
        now,
        statuses.len() as int,
    ) + phase_plans(Phase::Settle, statuses, facts, now, statuses.len() as int) + outcome_plans(
        statuses,
        outcomes,
        now,
        outcomes.len() as int,
    )
}

/// Whether every plan of a list names a slot with a status, whose status
/// before the step the plan changes legally.
pub open spec fn plans_legal(statuses: Seq<Option<ManeuverStatus>>, plans: Seq<(usize, ManeuverPlan)>, now: u64) -> bool {
    forall|k: int|
        0 <= k < plans.len() ==> (#[trigger] plans[k]).0 < statuses.len() && statuses[plans[k].0 as int].is_some()
            && plan_is_legal(statuses[plans[k].0 as int]->0, plans[k].1, AgentId::at(plans[k].0 as int), now)
}

/// Whether a decided claim names a live preparing agent whose claim clause
/// reached `Claim` this step.
pub open spec fn is_claimant(
    statuses: Seq<Option<ManeuverStatus>>,
    facts: Seq<StepFacts>,
    o: ClaimOutcome,
    now: u64,
) -> bool {
    let i = o.agent.value() as int;
    &&& i < statuses.len()
    &&& i < facts.len()
    &&& facts[i].alive
    &&& statuses[i] is Some
    &&& statuses[i]->0.maneuver == ManeuverState::Preparing
    &&& preparing_decision_of(statuses[i]->0, o.agent, facts[i].preparing, now) is Claim
}

/// Whether a decided claim names an agent that starts the step preparing.
pub open spec fn names_preparing(statuses: Seq<Option<ManeuverStatus>>, o: ClaimOutcome) -> bool {
    let i = o.agent.value() as int;
    &&& i < statuses.len()
    &&& statuses[i] is Some
    &&& statuses[i]->0.maneuver == ManeuverState::Preparing
}

/// Whether a claim batch decides each claimant at most once: no two decided
/// claims name the same agent, and a decided claim that names a preparing
/// agent names one whose claim clause reached `Claim`. Claims of agents that
/// are not preparing, such as committed ones, may stand in the batch; they
/// change nothing.
pub open spec fn outcomes_well_formed(
    statuses: Seq<Option<ManeuverStatus>>,
    facts: Seq<StepFacts>,
    outcomes: Seq<ClaimOutcome>,
    now: u64,
) -> bool {
    &&& forall|k: int| 0 <= k < outcomes.len() && names_preparing(statuses, #[trigger] outcomes[k]) ==> is_claimant(
        statuses,
        facts,
        outcomes[k],
        now,
    )
    &&& forall|k1: int, k2: int| 0 <= k1 < k2 < outcomes.len() ==> (#[trigger] outcomes[k1]).agent != (#[trigger] outcomes[k2]).agent
}

/// Whether no two plans of a list name the same agent.
pub open spec fn distinct_agents(plans: Seq<(usize, ManeuverPlan)>) -> bool {
    forall|k1: int, k2: int| 0 <= k1 < k2 < plans.len() ==> (#[trigger] plans[k1]).0 != (#[trigger] plans[k2]).0
}

/// Which decision an agent's tick-start state leads to: an attempt, a claim
/// or commitment clause that is not a claim, a settle edge, or a claim.
pub open spec fn decision_class(s: Option<ManeuverStatus>, f: StepFacts, i: int, now: u64) -> int {
    match s {
        Some(st) => match st.maneuver {
            ManeuverState::Following => 0,
            ManeuverState::Preparing => if preparing_decision_of(st, AgentId::at(i), f.preparing, now) is Claim {
                3
            } else {
                1
            },
            ManeuverState::Committed => 1,
            _ => 2,
        },
        None => 4,
    }
}

/// The phase number of a phase.
pub open spec fn phase_class(phase: Phase) -> int {
    match phase {
        Phase::Attempt => 0,
        Phase::Claim => 1,
        Phase::Settle => 2,
    }
}

/// One phase's plans name ascending agents below `n`, each in the class of
/// that phase.
proof fn lemma_phase_plans_shape(
    phase: Phase,
    statuses: Seq<Option<ManeuverStatus>>,
    facts: Seq<StepFacts>,
    now: u64,
    n: int,
)
    requires
        0 <= n <= statuses.len(),
        facts.len() == statuses.len(),
        statuses.len() <= u32::MAX,
    ensures
        forall|k: int| 0 <= k < phase_plans(phase, statuses, facts, now, n).len() ==> {
            let i = (#[trigger] phase_plans(phase, statuses, facts, now, n)[k]).0 as int;
            &&& 0 <= i < n
            &&& decision_class(statuses[i], facts[i], i, now) == phase_class(phase)
        },
        forall|k1: int, k2: int| 0 <= k1 < k2 < phase_plans(phase, statuses, facts, now, n).len() ==>
            (#[trigger] phase_plans(phase, statuses, facts, now, n)[k1]).0 < (#[trigger] phase_plans(phase, statuses, facts, now, n)[k2]).0,
    decreases n,
{
    if n > 0 {
        lemma_phase_plans_shape(phase, statuses, facts, now, n - 1);
        let rest = phase_plans(phase, statuses, facts, now, n - 1);
        let cur = phase_plans(phase, statuses, facts, now, n);
        match phase_plan(phase, statuses[n - 1], facts[n - 1], n - 1, now) {
            Some(plan) => {
                assert(cur == rest.push(((n - 1) as usize, plan)));
                assert(decision_class(statuses[n - 1], facts[n - 1], n - 1, now) == phase_class(phase));
                assert forall|k: int| 0 <= k < cur.len() implies {
                    let i = (#[trigger] cur[k]).0 as int;
                    &&& 0 <= i < n
                    &&& decision_class(statuses[i], facts[i], i, now) == phase_class(phase)
                } by {
                    if k < rest.len() {
                        assert(cur[k] == rest[k]);
                    }
                }
                assert forall|k1: int, k2: int| 0 <= k1 < k2 < cur.len() implies (#[trigger] cur[k1]).0 < (#[trigger] cur[k2]).0 by {
                    assert(cur[k1] == rest[k1]);
                    if k2 < rest.len() {
                        assert(cur[k2] == rest[k2]);
                    }
                }
            },
            None => {},
        }
    }
}

/// Whether slot `v` is the agent of one of the first `n` decided claims, and
/// that claim names a claimant.
pub open spec fn claimed_by_one_of(
    statuses: Seq<Option<ManeuverStatus>>,
    facts: Seq<StepFacts>,
    outcomes: Seq<ClaimOutcome>,
    now: u64,
    n: int,
    v: int,
) -> bool {
    exists|m: int| #![trigger outcomes[m]] 0 <= m < n && is_claimant(statuses, facts, outcomes[m], now) && outcomes[m].agent.value() == v
}

/// Under a well-formed claim batch, the decided claims' plans name distinct
/// claimants, each the agent of one of the decided claims.
proof fn lemma_outcome_plans_shape(
    statuses: Seq<Option<ManeuverStatus>>,
    facts: Seq<StepFacts>,
    outcomes: Seq<ClaimOutcome>,
    now: u64,
    n: int,
)
    requires
        0 <= n <= outcomes.len(),
        statuses.len() <= u32::MAX,
        outcomes_well_formed(statuses, facts, outcomes, now),
    ensures
        forall|k: int| 0 <= k < outcome_plans(statuses, outcomes, now, n).len() ==> claimed_by_one_of(
            statuses,
            facts,
            outcomes,
            now,
            n,
            (#[trigger] outcome_plans(statuses, outcomes, now, n)[k]).0 as int,
        ),
        forall|k1: int, k2: int| 0 <= k1 < k2 < outcome_plans(statuses, outcomes, now, n).len() ==>
            (#[trigger] outcome_plans(statuses, outcomes, now, n)[k1]).0 != (#[trigger] outcome_plans(statuses, outcomes, now, n)[k2]).0,
    decreases n,
{
    if n > 0 {
        lemma_outcome_plans_shape(statuses, facts, outcomes, now, n - 1);
        let o = outcomes[n - 1];
        let rest = outcome_plans(statuses, outcomes, now, n - 1);
        let cur = outcome_plans(statuses, outcomes, now, n);
        assert forall|k: int| 0 <= k < rest.len() implies claimed_by_one_of(statuses, facts, outcomes, now, n, (#[trigger] rest[k]).0 as int) by {
            assert(claimed_by_one_of(statuses, facts, outcomes, now, n - 1, rest[k].0 as int));
            let m = choose|m: int| #![trigger outcomes[m]] 0 <= m < n - 1 && is_claimant(statuses, facts, outcomes[m], now)
                && outcomes[m].agent.value() == rest[k].0 as int;
            assert(0 <= m < n && is_claimant(statuses, facts, outcomes[m], now) && outcomes[m].agent.value() == rest[k].0 as int);
        }
        match batch_outcome_plan(statuses, o, now) {
            Some(entry) => {
                assert(names_preparing(statuses, o));
                assert(is_claimant(statuses, facts, o, now));
                assert(cur == rest.push(entry));
                assert(entry.0 == o.agent.value());
                assert(claimed_by_one_of(statuses, facts, outcomes, now, n, entry.0 as int)) by {
                    assert(is_claimant(statuses, facts, outcomes[n - 1], now) && outcomes[n - 1].agent.value() == entry.0 as int);
                }
                assert forall|k: int| 0 <= k < cur.len() implies claimed_by_one_of(statuses, facts, outcomes, now, n, (#[trigger] cur[k]).0 as int) by {
                    if k < rest.len() {
                        assert(cur[k] == rest[k]);
                    }
                }
                assert forall|k1: int, k2: int| 0 <= k1 < k2 < cur.len() implies (#[trigger] cur[k1]).0 != (#[trigger] cur[k2]).0 by {
                    assert(cur[k1] == rest[k1]);
                    if k2 < rest.len() {
                        assert(cur[k2] == rest[k2]);
                    } else {
                        assert(claimed_by_one_of(statuses, facts, outcomes, now, n - 1, rest[k1].0 as int));
                        let m = choose|m: int| #![trigger outcomes[m]] 0 <= m < n - 1 && is_claimant(statuses, facts, outcomes[m], now)
                            && outcomes[m].agent.value() == rest[k1].0 as int;
                        assert(outcomes[m].agent != outcomes[n - 1].agent);
                        if outcomes[m].agent.value() == outcomes[n - 1].agent.value() {
                            AgentId::lemma_value_identifies(outcomes[m].agent, outcomes[n - 1].agent);
                        }
                    }
                }
            },
            None => {
                assert(cur == rest);
            },
        }
    }
}

/// Under a well-formed claim batch, the plans of a step name each agent at
/// most once.
proof fn lemma_batch_distinct(
    statuses: Seq<Option<ManeuverStatus>>,
    facts: Seq<StepFacts>,
    outcomes: Seq<ClaimOutcome>,
    now: u64,
)
    requires
        facts.len() == statuses.len(),
        statuses.len() <= u32::MAX,
        outcomes_well_formed(statuses, facts, outcomes, now),
    ensures
        distinct_agents(batch_plans(statuses, facts, outcomes, now)),
{
    let n = statuses.len() as int;
    let a = phase_plans(Phase::Attempt, statuses, facts, now, n);
    let c = phase_plans(Phase::Claim, statuses, facts, now, n);
    let st = phase_plans(Phase::Settle, statuses, facts, now, n);
    let o = outcome_plans(statuses, outcomes, now, outcomes.len() as int);
    lemma_phase_plans_shape(Phase::Attempt, statuses, facts, now, n);
    lemma_phase_plans_shape(Phase::Claim, statuses, facts, now, n);
    lemma_phase_plans_shape(Phase::Settle, statuses, facts, now, n);
    lemma_outcome_plans_shape(statuses, facts, outcomes, now, outcomes.len() as int);
    let r = batch_plans(statuses, facts, outcomes, now);
    assert(r == a + c + st + o);
    // The class of every plan's agent, by the segment the plan stands in.
    assert forall|k: int| 0 <= k < r.len() implies {
        let i = (#[trigger] r[k]).0 as int;
        &&& 0 <= i < n
        &&& decision_class(statuses[i], facts[i], i, now) == (if k < a.len() {
            0int
        } else if k < a.len() + c.len() {
            1int
        } else if k < a.len() + c.len() + st.len() {
            2int
        } else {
            3int
        })
    } by {
        if k < a.len() {
            assert(r[k] == a[k]);
        } else if k < a.len() + c.len() {
            assert(r[k] == c[k - a.len()]);
        } else if k < a.len() + c.len() + st.len() {
            assert(r[k] == st[k - a.len() - c.len()]);
        } else {
            let m = k - a.len() - c.len() - st.len();
            assert(r[k] == o[m]);
            assert(claimed_by_one_of(statuses, facts, outcomes, now, outcomes.len() as int, o[m].0 as int));
            let j = choose|j: int| #![trigger outcomes[j]]
                0 <= j < outcomes.len() && is_claimant(statuses, facts, outcomes[j], now)
                    && outcomes[j].agent.value() == o[m].0 as int;
            let oc = outcomes[j];
            let i = oc.agent.value() as int;
            AgentId::lemma_at_value(i);
            AgentId::lemma_value_identifies(AgentId::at(i), oc.agent);
        }
    }
    assert forall|k1: int, k2: int| 0 <= k1 < k2 < r.len() implies (#[trigger] r[k1]).0 != (#[trigger] r[k2]).0 by {
        if k2 < a.len() {
            assert(r[k1] == a[k1] && r[k2] == a[k2]);
        } else if a.len() <= k1 && k2 < a.len() + c.len() {
            assert(r[k1] == c[k1 - a.len()] && r[k2] == c[k2 - a.len()]);
        } else if a.len() + c.len() <= k1 && k2 < a.len() + c.len() + st.len() {
            assert(r[k1] == st[k1 - a.len() - c.len()] && r[k2] == st[k2 - a.len() - c.len()]);
        } else if a.len() + c.len() + st.len() <= k1 {
            let m1 = k1 - a.len() - c.len() - st.len();
            let m2 = k2 - a.len() - c.len() - st.len();
            assert(r[k1] == o[m1] && r[k2] == o[m2]);
        } else {
            // Different segments: the classes of the two agents differ.
            let i1 = r[k1].0 as int;
            let i2 = r[k2].0 as int;
            if i1 == i2 {
                assert(decision_class(statuses[i1], facts[i1], i1, now) == decision_class(statuses[i2], facts[i2], i2, now));
            }
        }
    }
}

/// Applying a legal batch that names each agent at most once records each
/// agent's state change at most once: every recorded transition takes a
/// documented edge from its agent's tick-start state, carries a reason
/// exactly when it enters `aborted`, and leaves its agent in the state it
/// entered.
pub proof fn law_a_batch_records_each_agent_once_in_the_state_it_enters(
    statuses: Seq<Option<ManeuverStatus>>,
    plans: Seq<(usize, ManeuverPlan)>,
    now: u64,
)
    requires
        statuses.len() <= u32::MAX,
        plans_legal(statuses, plans, now),
        distinct_agents(plans),
    ensures
        ({
            let t = recorded_transitions(plans, plans.len() as int);
            let after = applied(statuses, plans, plans.len() as int);
            &&& forall|j1: int, j2: int| 0 <= j1 < j2 < t.len() ==> (#[trigger] t[j1]).agent != (#[trigger] t[j2]).agent
            &&& forall|j: int| 0 <= j < t.len() ==> {
                let i = (#[trigger] t[j]).agent.value() as int;
                &&& 0 <= i < statuses.len()
                &&& legal_edge(t[j].from, t[j].to, t[j].edge)
                &&& (t[j].reason is Some <==> t[j].to == ManeuverState::Aborted)
                &&& statuses[i] is Some
                &&& t[j].from == statuses[i]->0.maneuver
                &&& after[i] is Some
                &&& after[i]->0.maneuver == t[j].to
            }
        }),
{
    let n = plans.len() as int;
    lemma_recorded_sources(plans, n);
    lemma_applied_final(statuses, plans, n);
    let t = recorded_transitions(plans, n);
    let after = applied(statuses, plans, n);
    assert forall|j: int| 0 <= j < t.len() implies {
        let i = (#[trigger] t[j]).agent.value() as int;
        &&& 0 <= i < statuses.len()
        &&& legal_edge(t[j].from, t[j].to, t[j].edge)
        &&& (t[j].reason is Some <==> t[j].to == ManeuverState::Aborted)
        &&& statuses[i] is Some
        &&& t[j].from == statuses[i]->0.maneuver
        &&& after[i] is Some
        &&& after[i]->0.maneuver == t[j].to
    } by {
        let k = choose|k: int| 0 <= k < n && #[trigger] plans[k].1.transition == Some(t[j]);
        assert(plans_legal(statuses, plans, now));
        assert(plan_is_legal(statuses[plans[k].0 as int]->0, plans[k].1, AgentId::at(plans[k].0 as int), now));
        AgentId::lemma_at_value(plans[k].0 as int);
    }
    lemma_recorded_agents_distinct(statuses, plans, now, n);
}

/// Every recorded transition comes from one of the plans.
proof fn lemma_recorded_sources(plans: Seq<(usize, ManeuverPlan)>, n: int)
    requires
        0 <= n <= plans.len(),
    ensures
        forall|j: int| 0 <= j < recorded_transitions(plans, n).len() ==> exists|k: int|
            0 <= k < n && #[trigger] plans[k].1.transition == Some(#[trigger] recorded_transitions(plans, n)[j]),
    decreases n,
{
    if n > 0 {
        lemma_recorded_sources(plans, n - 1);
        let rest = recorded_transitions(plans, n - 1);
        let cur = recorded_transitions(plans, n);
        assert forall|j: int| 0 <= j < cur.len() implies exists|k: int|
            0 <= k < n && #[trigger] plans[k].1.transition == Some(#[trigger] cur[j]) by {
            if j < rest.len() {
                assert(cur[j] == rest[j]);
                let k = choose|k: int| 0 <= k < n - 1 && #[trigger] plans[k].1.transition == Some(#[trigger] rest[j]);
                assert(plans[k].1.transition == Some(cur[j]));
            } else {
                assert(plans[n - 1].1.transition == Some(cur[j]));
            }
        }
    }
}

/// The transitions of plans that name each agent at most once name each
/// agent at most once.
proof fn lemma_recorded_agents_distinct(
    statuses: Seq<Option<ManeuverStatus>>,
    plans: Seq<(usize, ManeuverPlan)>,
    now: u64,
    n: int,
)
    requires
        0 <= n <= plans.len(),
        statuses.len() <= u32::MAX,
        plans_legal(statuses, plans, now),
        distinct_agents(plans),
    ensures
        forall|j: int| 0 <= j < recorded_transitions(plans, n).len() ==> exists|k: int|
            0 <= k < n && (#[trigger] recorded_transitions(plans, n)[j]).agent.value() == #[trigger] plans[k].0,
        forall|j1: int, j2: int| 0 <= j1 < j2 < recorded_transitions(plans, n).len() ==>
            (#[trigger] recorded_transitions(plans, n)[j1]).agent != (#[trigger] recorded_transitions(plans, n)[j2]).agent,
    decreases n,
{
    if n > 0 {
        lemma_recorded_agents_distinct(statuses, plans, now, n - 1);
        let rest = recorded_transitions(plans, n - 1);
        let cur = recorded_transitions(plans, n);
        match plans[n - 1].1.transition {
            Some(t) => {
                assert(cur == rest.push(t));
                assert(plan_is_legal(statuses[plans[n - 1].0 as int]->0, plans[n - 1].1, AgentId::at(plans[n - 1].0 as int), now));
                AgentId::lemma_at_value(plans[n - 1].0 as int);
                assert forall|j: int| 0 <= j < cur.len() implies exists|k: int|
                    0 <= k < n && (#[trigger] cur[j]).agent.value() == #[trigger] plans[k].0 by {
                    if j < rest.len() {
                        assert(cur[j] == rest[j]);
                        let k = choose|k: int| 0 <= k < n - 1 && (#[trigger] rest[j]).agent.value() == #[trigger] plans[k].0;
                        assert(cur[j].agent.value() == plans[k].0);
                    } else {
                        assert(cur[j].agent.value() == plans[n - 1].0);
                    }
                }
                assert forall|j1: int, j2: int| 0 <= j1 < j2 < cur.len() implies (#[trigger] cur[j1]).agent != (#[trigger] cur[j2]).agent by {
                    assert(cur[j1] == rest[j1]);
                    if j2 < rest.len() {
                        assert(cur[j2] == rest[j2]);
                    } else {
                        let k = choose|k: int| 0 <= k < n - 1 && (#[trigger] rest[j1]).agent.value() == #[trigger] plans[k].0;
                        assert(plans[k].0 != plans[n - 1].0);
                    }
                }
            },
            None => {},
        }
    }
}

/// Applying plans that name each agent at most once leaves every planned
/// agent in its plan's status.
proof fn lemma_applied_final(statuses: Seq<Option<ManeuverStatus>>, plans: Seq<(usize, ManeuverPlan)>, n: int)
    requires
        0 <= n <= plans.len(),
        forall|k: int| 0 <= k < plans.len() ==> (#[trigger] plans[k]).0 < statuses.len(),
        distinct_agents(plans),
    ensures
        applied(statuses, plans, n).len() == statuses.len(),
        forall|k: int| 0 <= k < n ==> applied(statuses, plans, n)[(#[trigger] plans[k]).0 as int] == Some(plans[k].1.status),
    decreases n,
{
    if n > 0 {
        lemma_applied_final(statuses, plans, n - 1);
        assert forall|k: int| 0 <= k < n implies applied(statuses, plans, n)[(#[trigger] plans[k]).0 as int] == Some(
            plans[k].1.status,
        ) by {
            if k < n - 1 {
                assert(plans[k].0 != plans[n - 1].0);
            }
        }
    }
}

/// The plan one phase decides for one agent.
fn decide_phase(phase: &Phase, s: Option<ManeuverStatus>, f: StepFacts, i: usize, now: u64) -> (r: Option<ManeuverPlan>)
    requires
        i <= u32::MAX,
    ensures
        r == phase_plan(*phase, s, f, i as int, now),
        r matches Some(plan) ==> s is Some && plan_is_legal(s->0, plan, AgentId::at(i as int), now),
{
    let st = match s {
        Some(st) => st,
        None => return None,
    };
    let agent = AgentId::from_index(i);
    match phase {
        Phase::Attempt => {
            if f.alive && st.maneuver == ManeuverState::Following && st.intent.is_some() {
                attempt_plan(st, agent, f.attempt, now)
            } else {
                None
            }
        },
        Phase::Claim => {
            if !f.alive {
                None
            } else if st.maneuver == ManeuverState::Preparing {
                match preparing_decision(st, agent, f.preparing, now) {
                    PreparingDecision::Abort(plan) => Some(plan),
                    _ => None,
                }
            } else if st.maneuver == ManeuverState::Committed {
                if !st.corridor_fixed {
                    Some(abort_plan(st, agent, ManeuverAbortReason::CorridorInfeasible, now))
                } else {
                    Some(committed_plan(st, agent, f.committed, now))
                }
            } else {
                None
            }
        },
        Phase::Settle => {
            if f.alive && (st.maneuver == ManeuverState::Returning || st.maneuver == ManeuverState::Aborted) {
                Some(settle_plan(st, agent, f.at_target, f.return_obstructed, now))
            } else {
                None
            }
        },
    }
}

/// Append one phase's plans over every agent, in ascending agent order.
fn push_phase(
    phase: Phase,
    statuses: &Vec<Option<ManeuverStatus>>,
    facts: &Vec<StepFacts>,
    now: u64,
    out: &mut Vec<(usize, ManeuverPlan)>,
)
    requires
        facts@.len() == statuses@.len(),
        statuses@.len() <= u32::MAX,
        plans_legal(statuses@, old(out)@, now),
    ensures
        final(out)@ == old(out)@ + phase_plans(phase, statuses@, facts@, now, statuses@.len() as int),
        plans_legal(statuses@, final(out)@, now),
{
    let ghost start = out@;
    let mut i: usize = 0;
    while i < statuses.len()
        invariant
            i <= statuses@.len(),
            facts@.len() == statuses@.len(),
            statuses@.len() <= u32::MAX,
            out@ == start + phase_plans(phase, statuses@, facts@, now, i as int),
            plans_legal(statuses@, out@, now),
        decreases statuses.len() - i,
    {
        let ghost before = out@;
        match decide_phase(&phase, statuses[i], facts[i], i, now) {
            Some(plan) => {
                out.push((i, plan));
                proof {
                    assert(out@ =~= start + phase_plans(phase, statuses@, facts@, now, i + 1));
                    assert forall|k: int| 0 <= k < out@.len() implies (#[trigger] out@[k]).0 < statuses@.len()
                        && statuses@[out@[k].0 as int].is_some() && plan_is_legal(
                        statuses@[out@[k].0 as int]->0,
                        out@[k].1,
                        AgentId::at(out@[k].0 as int),
                        now,
                    ) by {
                        if k < before.len() {
                            assert(out@[k] == before[k]);
                        }
                    }
                }
            },
            None => {
                proof {
                    assert(out@ =~= start + phase_plans(phase, statuses@, facts@, now, i + 1));
                }
            },
        }
        i = i + 1;
    }
}

/// Decide a step's maneuver batch from the tick-start statuses, each agent's
/// measured facts, and the decided corridor claims.
///
/// The plans come in phase order: the attempts of every agent in ascending id
/// order, then the claim and commitment clauses, then the settle edges, then
/// the decided claim batch, where a granted claim commits its preparing
/// claimant and a rejected one aborts it. The batch names each agent at most
/// once; a decided claim of a preparing agent is a claim its claim clause
/// sought this step, and a decided claim of an agent that is not preparing,
/// such as a committed one whose claim keeps its corridor, changes nothing.
/// Every decision reads the tick-start status, never one
/// another decision wrote, every plan changes its agent's tick-start status
/// along an edge of the documented table, and no agent is planned twice.
pub fn plan_batch(
    statuses: &Vec<Option<ManeuverStatus>>,
    facts: &Vec<StepFacts>,
    outcomes: &Vec<ClaimOutcome>,
    now: u64,
) -> (r: Vec<(usize, ManeuverPlan)>)
    requires
        facts@.len() == statuses@.len(),
        statuses@.len() <= u32::MAX,
        outcomes_well_formed(statuses@, facts@, outcomes@, now),
    ensures
        r@ == batch_plans(statuses@, facts@, outcomes@, now),
        plans_legal(statuses@, r@, now),
        distinct_agents(r@),
{
    let mut out: Vec<(usize, ManeuverPlan)> = Vec::new();
    push_phase(Phase::Attempt, statuses, facts, now, &mut out);
    push_phase(Phase::Claim, statuses, facts, now, &mut out);
    push_phase(Phase::Settle, statuses, facts, now, &mut out);
    let ghost start = out@;
    let mut k: usize = 0;
    while k < outcomes.len()
        invariant
            k <= outcomes@.len(),
            statuses@.len() <= u32::MAX,
            out@ == start + outcome_plans(statuses@, outcomes@, now, k as int),
            plans_legal(statuses@, out@, now),
        decreases outcomes.len() - k,
    {
        let o = outcomes[k];
        let index = o.agent.index();
        let ghost before = out@;
        if index < statuses.len() {
            match statuses[index] {
                Some(st) => {
                    if st.maneuver == ManeuverState::Preparing {
                        let plan = claim_plan(st, o.agent, o.granted, now);
                        proof {
                            AgentId::lemma_at_value(index as int);
                            AgentId::lemma_value_identifies(AgentId::at(index as int), o.agent);
                        }
                        out.push((index, plan));
                        proof {
                            assert forall|j: int| 0 <= j < out@.len() implies (#[trigger] out@[j]).0 < statuses@.len()
                                && statuses@[out@[j].0 as int].is_some() && plan_is_legal(
                                statuses@[out@[j].0 as int]->0,
                                out@[j].1,
                                AgentId::at(out@[j].0 as int),
                                now,
                            ) by {
                                if j < before.len() {
                                    assert(out@[j] == before[j]);
                                }
                            }
                        }
                    }
                },
                None => {},
            }
        }
        proof {
            assert(out@ =~= start + outcome_plans(statuses@, outcomes@, now, k + 1));
        }
        k = k + 1;
    }
    proof {
        lemma_batch_distinct(statuses@, facts@, outcomes@, now);
    }
    out
}

/// The lateral toolset of one agent's route state: a bounded-steering
/// envelope, a target clearance, and a prediction horizon, each present for a
/// lateral-capable mode on a compiled facility.
#[derive(Debug, Clone, Copy, PartialEq, Eq, Hash, Structural)]
pub struct SteeringFacts {
    /// Whether the route state carries a bounded-steering envelope.
    pub bounded_steering: bool,
    /// Whether it carries a target clearance.
    pub target_clearance: bool,
    /// Whether it carries a prediction horizon.
    pub horizon: bool,
}

/// Whether a route state carries the whole lateral toolset.
pub open spec fn lateral_capable(f: SteeringFacts) -> bool {
    f.bounded_steering && f.target_clearance && f.horizon
}

/// Whether an agent is a candidate for the lateral maneuver tactic this step.
pub open spec fn candidate_of(alive: bool, route: Option<(ManeuverStatus, SteeringFacts)>) -> bool {
    alive && match route {
        Some((s, f)) => s.maneuver == ManeuverState::Following && s.intent.is_none() && lateral_capable(f),
        None => false,
    }
}

/// Whether one agent is a candidate for the lateral maneuver tactic this
/// step: a live `following` agent whose route state carries the lateral
/// toolset and has no maneuver or intent already recorded.
pub fn maneuver_candidate(alive: bool, route: Option<(ManeuverStatus, SteeringFacts)>) -> (r: bool)
    ensures
        r == candidate_of(alive, route),
{
    alive && match route {
        Some((s, f)) => {
            s.maneuver == ManeuverState::Following && s.intent.is_none() && f.bounded_steering
                && f.target_clearance && f.horizon
        },
        None => false,
    }
}

/// Whether an agent's route state holds a maneuver or a recorded intent.
pub open spec fn busy(status: Option<ManeuverStatus>) -> bool {
    match status {
        Some(s) => s.maneuver != ManeuverState::Following || s.intent.is_some(),
        None => false,
    }
}

/// Whether any live agent holds a maneuver or a recorded intent, so the
/// maneuver pass has a decision to make.
pub fn maneuver_in_flight(alive: &Vec<bool>, statuses: &Vec<Option<ManeuverStatus>>) -> (r: bool)
    requires
        alive@.len() == statuses@.len(),
    ensures
        r == exists|i: int| 0 <= i < alive@.len() && alive@[i] && #[trigger] busy(statuses@[i]),
{
    let mut i: usize = 0;
    while i < alive.len()
        invariant
            i <= alive@.len(),
            alive@.len() == statuses@.len(),
            forall|j: int| 0 <= j < i ==> !(alive@[j] && #[trigger] busy(statuses@[j])),
        decreases alive.len() - i,
    {
        let held = match statuses[i] {
            Some(s) => s.maneuver != ManeuverState::Following || s.intent.is_some(),
            None => false,
        };
        if alive[i] && held {
            assert(alive@[i as int] && busy(statuses@[i as int]));
            return true;
        }
        i = i + 1;
    }
    false
}

/// The route state a lateral request leaves, or `None` when it is refused.
pub open spec fn lateral_request_of(
    commit_policy: bool,
    agent: AgentId,
    request: LateralManeuverRequest,
    alive: Seq<bool>,
    route: Option<(ManeuverStatus, SteeringFacts)>,
) -> Option<ManeuverStatus> {
    if !commit_policy || !slot_alive(alive, agent) || request.passed_body == agent || !slot_alive(
        alive,
        request.passed_body,
    ) || !bits_finite(request.target_offset_m.bits) {
        None
    } else {
        match route {
            Some((s, f)) => if lateral_capable(f) {
                Some(ManeuverStatus { intent: Some(request), ..s })
            } else {
                None
            },
            None => None,
        }
    }
}

/// Record one agent's lateral intent for the following decisions.
///
/// The request is refused, and nothing recorded, when the scenario authors no
/// commit policy to commit under, the agent is not alive, the passed obstacle
/// is the agent itself or not a live body, the target offset is not finite,
/// or the agent's route state (`route`, with its lateral toolset) is absent or
/// lacks a bounded-steering envelope, a target clearance, or a horizon.
/// Otherwise the returned route state carries the request as its intent.
pub fn request_lateral_maneuver(
    commit_policy: bool,
    agent: AgentId,
    request: LateralManeuverRequest,
    alive: &Vec<bool>,
    route: Option<(ManeuverStatus, SteeringFacts)>,
) -> (r: Option<ManeuverStatus>)
    ensures
        r == lateral_request_of(commit_policy, agent, request, alive@, route),
{
    if !commit_policy {
        return None;
    }
    let index = agent.index();
    let passed = request.passed_body.index();
    if index >= alive.len() || !alive[index] || request.passed_body == agent || passed >= alive.len()
        || !alive[passed] || !request.target_offset_m.is_finite() {
        return None;
    }
    match route {
        Some((s, f)) => {
            if f.bounded_steering && f.target_clearance && f.horizon {
                Some(ManeuverStatus { intent: Some(request), ..s })
            } else {
                None
            }
        },
        None => None,
    }
}

/// Whether a wrong-way entry request is recorded.
pub open spec fn wrong_way_request_of(
    wrong_way_policy: bool,
    agent: AgentId,
    alive: Seq<bool>,
    tactics: Option<Seq<TacticalCapability>>,
    opposing_connected: bool,
) -> bool {
    &&& wrong_way_policy
    &&& slot_alive(alive, agent)
    &&& match tactics {
        Some(t) => t.contains(TacticalCapability::ReverseNominalDirection),
        None => false,
    }
    &&& opposing_connected
}

/// Whether one agent's wrong-way entry request is recorded.
///
/// The request is refused when the scenario authors no wrong-way policy, the
/// agent is not alive, its route state names no compiled mode (`tactics` is
/// `None`) or the mode's tactics carry no reverse-direction capability, or
/// the compiled topology connects no opposing traversal.
pub fn request_wrong_way_entry(
    wrong_way_policy: bool,
    agent: AgentId,
    alive: &Vec<bool>,
    tactics: Option<&Vec<TacticalCapability>>,
    opposing_connected: bool,
) -> (r: bool)
    ensures
        r == wrong_way_request_of(
            wrong_way_policy,
            agent,
            alive@,
            match tactics {
                Some(t) => Some(t@),
                None => None,
            },
            opposing_connected,
        ),
{
    if !wrong_way_policy {
        return false;
    }
    let index = agent.index();
    if index >= alive.len() || !alive[index] {
        return false;
    }
    let reverses = match tactics {
        Some(t) => {
            let mut found = false;
            let mut i: usize = 0;
            while i < t.len()
                invariant
                    i <= t@.len(),
                    found == exists|j: int| 0 <= j < i && t@[j] == TacticalCapability::ReverseNominalDirection,
                decreases t.len() - i,
            {
                if t[i] == TacticalCapability::ReverseNominalDirection {
                    found = true;
                }
                i = i + 1;
            }
            found
        },
        None => false,
    };
    reverses && opposing_connected
}

/// Only a live agent that follows with no recorded intent, and whose route
/// state carries the bounded-steering envelope, the target clearance and the
/// horizon, is a candidate for the lateral maneuver tactic; an agent already
/// preparing, committed, returning or aborted never is.
pub proof fn law_only_a_free_following_agent_is_a_candidate(
    alive: bool,
    route: Option<(ManeuverStatus, SteeringFacts)>,
)
    ensures
        candidate_of(alive, route) <==> (alive && match route {
            Some((s, f)) => s.maneuver == ManeuverState::Following && s.intent is None && f.bounded_steering
                && f.target_clearance && f.horizon,
            None => false,
        }),
        route matches Some((s, _)) && s.maneuver != ManeuverState::Following ==> !candidate_of(alive, route),
{
}

/// The commitment clause answers an unsafe leg in the documented order. With
/// a live, uncleared passed body, a fixed target and a prediction on a leg that
/// is not an entry transient:
/// - a swept clearance below the policy minimum aborts for lost clearance;
/// - otherwise an infeasible leg, or one at or below the target clearance,
///   aborts for the hold timeout once it has elapsed, and until then brakes
///   and holds, keeping the hold's start and recording the swept clearance;
/// - otherwise the maneuver continues without braking and clears the hold.
/// A cleared passed body on a leg with a prediction (or on an entry
/// transient) completes into `returning`, and a lost one aborts.
pub proof fn law_an_unsafe_committed_leg_brakes_holds_or_aborts(
    status: ManeuverStatus,
    agent: AgentId,
    facts: CommittedFacts,
    now: u64,
)
    requires
        status.maneuver == ManeuverState::Committed,
    ensures
        ({
            let r = committed_plan_of(status, agent, facts, now);
            let live = status.passed_body is Some && facts.passed_alive;
            let measured = live && status.target_offset_m is Some && !status.entering_facility
                && facts.prediction is Some && !facts.passed_cleared;
            let p = facts.prediction->0;
            &&& !live ==> r.status.maneuver == ManeuverState::Aborted && r.transition is Some && r.transition->0.reason
                == Some(ManeuverAbortReason::TargetLost)
            &&& (live && status.target_offset_m is Some && (status.entering_facility || facts.prediction is Some)
                && facts.passed_cleared) ==> r.status.maneuver
                == ManeuverState::Returning && r.transition is Some && r.transition->0.edge == ManeuverEdge::Completed
            &&& (measured && p.below_policy_minimum) ==> r.status.maneuver == ManeuverState::Aborted
                && r.transition is Some && r.transition->0.reason == Some(ManeuverAbortReason::ClearanceLost)
            &&& (measured && !p.below_policy_minimum && (!p.feasible || p.within_target_clearance)
                && facts.hold_elapsed) ==> r.status.maneuver == ManeuverState::Aborted && r.transition is Some
                && r.transition->0.reason == Some(ManeuverAbortReason::HoldTimeout)
            &&& (measured && !p.below_policy_minimum && (!p.feasible || p.within_target_clearance)
                && !facts.hold_elapsed) ==> {
                &&& r.transition is None
                &&& r.status.maneuver == ManeuverState::Committed
                &&& r.status.braking
                &&& r.status.hold_since == Some(
                    match status.hold_since {
                        Some(t) => t,
                        None => now,
                    },
                )
                &&& r.status.predicted_min_clearance_m == Some(p.swept_clearance_m)
            }
            &&& (measured && !p.below_policy_minimum && p.feasible && !p.within_target_clearance) ==> {
                &&& r.transition is None
                &&& r.status.maneuver == ManeuverState::Committed
                &&& !r.status.braking
                &&& r.status.hold_since is None
                &&& r.status.predicted_min_clearance_m == Some(p.swept_clearance_m)
            }
        }),
{
}

/// A following agent's attempt consumes its intent unless the corridor is
/// infeasible: an admissible attempt prepares toward the intent's target and
/// passed body, a lost target drops the intent without a transition, and a
/// forbidden boundary drops it and records why; an infeasible corridor decides
/// nothing, so the intent is kept for the next decision.
pub proof fn law_an_attempt_consumes_its_intent_unless_infeasible(
    status: ManeuverStatus,
    agent: AgentId,
    attempt: Attempt,
    now: u64,
)
    requires
        status.maneuver == ManeuverState::Following,
        status.intent is Some,
    ensures
        ({
            let r = attempt_plan_of(status, agent, attempt, now);
            let request = status.intent->0;
            &&& r is None <==> attempt is Infeasible
            &&& r matches Some(plan) ==> plan.status.intent is None
            &&& attempt is Admissible ==> {
                let plan = r->0;
                &&& plan.status.maneuver == ManeuverState::Preparing
                &&& plan.status.target_offset_m == Some(request.target_offset_m)
                &&& plan.status.target_facility == request.target_facility
                &&& plan.status.passed_body == Some(request.passed_body)
                &&& plan.status.state_since == Some(now)
                &&& plan.transition is Some
                &&& plan.transition->0.edge == ManeuverEdge::Attempted
                &&& plan.transition->0.agent == agent
            }
            &&& (attempt is TargetLost || attempt is BoundaryForbidden) ==> {
                let plan = r->0;
                &&& plan.transition is None
                &&& plan.status.maneuver == ManeuverState::Following
            }
            &&& attempt is BoundaryForbidden ==> r->0.status.maneuver_reason == Some(ManeuverReason::BoundaryForbidden)
        }),
{
}

/// A preparing maneuver claims only at a decision after the one that
/// prepared it, with its corridor fixed, its passed body alive, its hold
/// timeout not elapsed, and a feasible prediction toward a fixed target;
/// before it is due it waits, and otherwise it aborts for the first failed
/// condition in that order.
pub proof fn law_a_preparing_maneuver_claims_only_when_ready(
    status: ManeuverStatus,
    agent: AgentId,
    facts: PreparingFacts,
    now: u64,
)
    ensures
        ({
            let d = preparing_decision_of(status, agent, facts, now);
            let due = status.state_since is Some && status.state_since->0 < now;
            let reason_of = |d: PreparingDecision| match d {
                PreparingDecision::Abort(plan) => match plan.transition {
                    Some(t) => t.reason,
                    None => None,
                },
                _ => None,
            };
            &&& d is Wait <==> !due
            &&& d is Claim <==> (due && status.corridor_fixed && status.passed_body is Some && facts.passed_alive
                && !facts.hold_elapsed && status.target_offset_m is Some && facts.prediction_feasible)
            &&& d matches PreparingDecision::Abort(plan) ==> plan.status.maneuver == ManeuverState::Aborted
            &&& (due && !status.corridor_fixed) ==> reason_of(d) == Some(ManeuverAbortReason::CorridorInfeasible)
            &&& (due && status.corridor_fixed && (status.passed_body is None || !facts.passed_alive)) ==> reason_of(d)
                == Some(ManeuverAbortReason::TargetLost)
            &&& (due && status.corridor_fixed && status.passed_body is Some && facts.passed_alive && facts.hold_elapsed)
                ==> reason_of(d) == Some(ManeuverAbortReason::HoldTimeout)
        }),
{
}

/// A granted claim commits its claimant, and a rejected one aborts it for the
/// rejection.
pub proof fn law_a_claim_commits_when_granted_and_aborts_when_rejected(
    status: ManeuverStatus,
    agent: AgentId,
    granted: bool,
    now: u64,
)
    ensures
        ({
            let r = claim_plan_of(status, agent, granted, now);
            &&& granted ==> r.status.maneuver == ManeuverState::Committed && r.transition is Some
                && r.transition->0.edge == ManeuverEdge::Committed && r.status.state_since == Some(now)
            &&& !granted ==> r.status.maneuver == ManeuverState::Aborted && r.transition is Some
                && r.transition->0.reason == Some(ManeuverAbortReason::ClaimRejected)
        }),
{
}

/// A returning or aborted leg settles into `following` only once it has held
/// its return offset since an earlier decision: away from the offset it keeps
/// steering with no transition, on first reaching it it starts holding, and a
/// returning leg settles by completing while an aborted one settles by
/// aborting. Settling clears the maneuver's target and passed body.
pub proof fn law_a_leg_settles_after_holding_its_offset(
    status: ManeuverStatus,
    agent: AgentId,
    at_target: bool,
    return_obstructed: bool,
    now: u64,
)
    requires
        status.maneuver == ManeuverState::Returning || status.maneuver == ManeuverState::Aborted,
    ensures
        ({
            let r = settle_plan_of(status, agent, at_target, return_obstructed, now);
            let held = at_target && status.settled_since is Some && status.settled_since->0 < now;
            &&& r.transition is Some <==> held
            &&& !held ==> r.status.maneuver == status.maneuver
            &&& !at_target ==> r.status.settled_since is None && r.status.return_blocked == return_obstructed
            &&& (at_target && status.settled_since is None) ==> r.status.settled_since == Some(now)
            &&& held ==> {
                &&& r.status.maneuver == ManeuverState::Following
                &&& r.status.passed_body is None
                &&& r.status.target_offset_m is None
                &&& r.transition->0.edge == (if status.maneuver == ManeuverState::Returning {
                    ManeuverEdge::Completed
                } else {
                    ManeuverEdge::Aborted
                })
            }
        }),
{
}

} // verus!
