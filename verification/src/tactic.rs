//! The lateral maneuver tactic's eligibility decision.
//!
//! The same tactic serves a `pass` and an `overtake`: the two differ only in
//! which compiled capability selects them. The preconditions run in a fixed
//! order, so a rejected candidate reports the first one that failed:
//!
//! 1. capability: the mode's compiled tactics carry `pass` or `overtake`;
//! 2. the mode declares a lateral policy (a target clearance and a horizon),
//!    and the agent carries a bounded-steering envelope;
//! 3. permission: an applicable traversal policy exists, its `overtake`
//!    statement does not prohibit passing, and it names a passing side;
//! 4. route benefit: a visible leader within the maneuver reach whose desired
//!    speed is below the agent's own;
//! 5. sufficient usable width at the deterministic target on the resolved
//!    side;
//! 6. a feasible corridor over the whole horizon.
//!
//! The geometric facts (the reach, the balanced target and its clearance, the
//! predicted corridor) are measured outside the library; the order, the
//! reasons, and the recorded intent are decided here.

use vstd::prelude::*;

use crate::ids::{AgentId, PermissionEffect, TacticalCapability};
use crate::lifecycle::{LateralManeuverRequest, ManeuverStatus};
use crate::measure::{bits_le, Measure, POSITIVE_INFINITY_BITS};
use crate::stage::ManeuverReason;

verus! {

/// The side a facility's lateral policy passes on.
#[derive(Debug, Clone, Copy, PartialEq, Eq, Hash, Structural)]
pub enum PassingSide {
    /// Always pass on the left.
    Left,
    /// Always pass on the right.
    Right,
    /// Pass on the side the prediction leaves more clearance on.
    MostClearance,
}

/// The applicable traversal policy's statements the tactic reads.
#[derive(Debug, Clone, Copy, PartialEq, Eq, Hash, Structural)]
pub struct PolicyFacts {
    /// The policy's `overtake` statement, if any.
    pub overtake: Option<PermissionEffect>,
    /// The facility's passing side, if it names one.
    pub passing_side: Option<PassingSide>,
}

/// The visible leader a maneuver would displace around.
#[derive(Debug, Clone, Copy, PartialEq, Eq, Hash, Structural)]
pub struct LeaderFacts {
    /// The leader.
    pub agent: AgentId,
    /// The leader's desired speed in metres per second.
    pub desired_speed_mps: Measure,
    /// Whether the leader's gap lies within the agent's speed times the
    /// horizon.
    pub within_reach: bool,
}

/// The deterministic target on the resolved side and what was measured of it.
#[derive(Debug, Clone, Copy, PartialEq, Eq, Hash, Structural)]
pub struct TargetFacts {
    /// The target signed offset in metres.
    pub target_offset_m: Measure,
    /// Whether the balanced clearance reaches the target clearance and the
    /// target lies inside the usable corridor.
    pub sufficient_width: bool,
    /// Whether a prediction exists for the target and its corridor stays clear
    /// over the whole horizon.
    pub feasible: bool,
}

/// One candidate's facts for the tactic.
#[derive(Debug, Clone, Copy, PartialEq, Eq, Hash, Structural)]
pub struct TacticFacts {
    /// Whether the mode declares a lateral policy.
    pub lateral_policy: bool,
    /// Whether the agent's route state carries a bounded-steering envelope.
    pub bounded_steering: bool,
    /// The applicable traversal policy, if any.
    pub policy: Option<PolicyFacts>,
    /// The agent's own desired speed; `None` with no sampled profile, which
    /// counts as unbounded.
    pub desired_speed_mps: Option<Measure>,
    /// The visible leader within the facility traversal, if any.
    pub leader: Option<LeaderFacts>,
    /// The target on the resolved side, when a leader was found.
    pub target: Option<TargetFacts>,
}

/// The tactic's decision for one candidate.
#[derive(Debug, Clone, Copy, PartialEq, Eq, Hash, Structural)]
pub enum ManeuverDecision {
    /// The maneuver is selected toward `target_offset_m`, displacing around
    /// `passed_body`.
    Selected {
        /// The target signed offset in metres.
        target_offset_m: Measure,
        /// The leader the maneuver displaces around.
        passed_body: AgentId,
    },
    /// The first precondition that failed.
    Rejected(ManeuverReason),
}

/// Whether compiled tactics carry a `pass` or an `overtake` capability.
pub open spec fn selects_lateral(tactics: Option<Seq<TacticalCapability>>) -> bool {
    match tactics {
        Some(t) => t.contains(TacticalCapability::Pass) || t.contains(TacticalCapability::Overtake),
        None => false,
    }
}

/// Whether a leader is no slower than the agent wants to go.
pub open spec fn no_slower(leader: Measure, own: Option<Measure>) -> bool {
    let own_bits = match own {
        Some(s) => s.bits,
        None => POSITIVE_INFINITY_BITS,
    };
    bits_le(own_bits, leader.bits)
}

/// The tactic's decision for one candidate whose mode's compiled tactics are
/// `tactics` (`None` when the mode template is not compiled).
pub open spec fn decision_of(tactics: Option<Seq<TacticalCapability>>, f: TacticFacts) -> ManeuverDecision {
    if !selects_lateral(tactics) {
        ManeuverDecision::Rejected(ManeuverReason::Capability)
    } else if !f.lateral_policy {
        ManeuverDecision::Rejected(ManeuverReason::NoCorridor)
    } else if !f.bounded_steering {
        ManeuverDecision::Rejected(ManeuverReason::Capability)
    } else {
        match f.policy {
            None => ManeuverDecision::Rejected(ManeuverReason::NoPermission),
            Some(p) => if p.overtake == Some(PermissionEffect::Prohibit) || p.passing_side.is_none() {
                ManeuverDecision::Rejected(ManeuverReason::NoPermission)
            } else {
                match f.leader {
                    None => ManeuverDecision::Rejected(ManeuverReason::NoBenefit),
                    Some(l) => if no_slower(l.desired_speed_mps, f.desired_speed_mps) || !l.within_reach {
                        ManeuverDecision::Rejected(ManeuverReason::NoBenefit)
                    } else {
                        match f.target {
                            None => ManeuverDecision::Rejected(ManeuverReason::NoCorridor),
                            Some(t) => if !t.sufficient_width {
                                ManeuverDecision::Rejected(ManeuverReason::InsufficientWidth)
                            } else if !t.feasible {
                                ManeuverDecision::Rejected(ManeuverReason::NoCorridor)
                            } else {
                                ManeuverDecision::Selected {
                                    target_offset_m: t.target_offset_m,
                                    passed_body: l.agent,
                                }
                            },
                        }
                    },
                }
            },
        }
    }
}

/// Whether a list of compiled tactics carries a capability.
fn carries(tactics: &Vec<TacticalCapability>, capability: TacticalCapability) -> (r: bool)
    ensures
        r == tactics@.contains(capability),
{
    let mut i: usize = 0;
    while i < tactics.len()
        invariant
            i <= tactics@.len(),
            forall|j: int| 0 <= j < i ==> tactics@[j] != capability,
        decreases tactics.len() - i,
    {
        if tactics[i] == capability {
            assert(tactics@[i as int] == capability);
            return true;
        }
        i = i + 1;
    }
    false
}

/// The lateral maneuver tactic's decision for one candidate: the selected
/// target and passed leader, or the first precondition that failed.
pub fn maneuver_decision(tactics: Option<&Vec<TacticalCapability>>, facts: TacticFacts) -> (r: ManeuverDecision)
    ensures
        r == decision_of(
            match tactics {
                Some(t) => Some(t@),
                None => None,
            },
            facts,
        ),
{
    let lateral = match tactics {
        Some(t) => carries(t, TacticalCapability::Pass) || carries(t, TacticalCapability::Overtake),
        None => false,
    };
    if !lateral {
        return ManeuverDecision::Rejected(ManeuverReason::Capability);
    }
    if !facts.lateral_policy {
        return ManeuverDecision::Rejected(ManeuverReason::NoCorridor);
    }
    if !facts.bounded_steering {
        return ManeuverDecision::Rejected(ManeuverReason::Capability);
    }
    let policy = match facts.policy {
        Some(p) => p,
        None => return ManeuverDecision::Rejected(ManeuverReason::NoPermission),
    };
    if policy.overtake == Some(PermissionEffect::Prohibit) || policy.passing_side.is_none() {
        return ManeuverDecision::Rejected(ManeuverReason::NoPermission);
    }
    let leader = match facts.leader {
        Some(l) => l,
        None => return ManeuverDecision::Rejected(ManeuverReason::NoBenefit),
    };
    let own = match facts.desired_speed_mps {
        Some(s) => s,
        None => Measure::infinity(),
    };
    if own.at_most(leader.desired_speed_mps) || !leader.within_reach {
        return ManeuverDecision::Rejected(ManeuverReason::NoBenefit);
    }
    let target = match facts.target {
        Some(t) => t,
        None => return ManeuverDecision::Rejected(ManeuverReason::NoCorridor),
    };
    if !target.sufficient_width {
        return ManeuverDecision::Rejected(ManeuverReason::InsufficientWidth);
    }
    if !target.feasible {
        return ManeuverDecision::Rejected(ManeuverReason::NoCorridor);
    }
    ManeuverDecision::Selected { target_offset_m: target.target_offset_m, passed_body: leader.agent }
}

/// The route state a decision leaves: the decision's reason recorded as the
/// inspectable reason, and a selected within-facility maneuver recorded as the
/// intent the next attempt consumes.
pub open spec fn recorded_of(status: ManeuverStatus, decision: ManeuverDecision) -> ManeuverStatus {
    match decision {
        ManeuverDecision::Selected { target_offset_m, passed_body } => ManeuverStatus {
            maneuver_reason: Some(ManeuverReason::SlowerLeader),
            intent: Some(LateralManeuverRequest { target_offset_m, target_facility: None, passed_body }),
            ..status
        },
        ManeuverDecision::Rejected(reason) => ManeuverStatus { maneuver_reason: Some(reason), ..status },
    }
}

/// Record one candidate's decision on its route state.
pub fn record_decision(status: ManeuverStatus, decision: ManeuverDecision) -> (r: ManeuverStatus)
    ensures
        r == recorded_of(status, decision),
{
    match decision {
        ManeuverDecision::Selected { target_offset_m, passed_body } => ManeuverStatus {
            maneuver_reason: Some(ManeuverReason::SlowerLeader),
            intent: Some(LateralManeuverRequest { target_offset_m, target_facility: None, passed_body }),
            ..status
        },
        ManeuverDecision::Rejected(reason) => ManeuverStatus { maneuver_reason: Some(reason), ..status },
    }
}

/// A selected maneuver always displaces around the visible leader, and a
/// maneuver is selected only when every precondition holds: the tactic is
/// never chosen for a mode without the capability, under a prohibiting
/// statement, or behind a leader that is not slower.
pub proof fn law_selection_needs_every_precondition(tactics: Option<Seq<TacticalCapability>>, f: TacticFacts)
    ensures
        decision_of(tactics, f) matches ManeuverDecision::Selected { target_offset_m, passed_body } ==> {
            &&& selects_lateral(tactics)
            &&& f.lateral_policy && f.bounded_steering
            &&& f.policy matches Some(p) && p.overtake != Some(PermissionEffect::Prohibit) && p.passing_side.is_some()
            &&& f.leader matches Some(l) && l.agent == passed_body && !no_slower(l.desired_speed_mps, f.desired_speed_mps)
                && l.within_reach
            &&& f.target matches Some(t) && t.target_offset_m == target_offset_m && t.sufficient_width && t.feasible
        },
{
}

} // verus!
