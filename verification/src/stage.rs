//! The closed state, edge, side, and reason sets of the maneuver and rule
//! stages.
//!
//! The maneuver lifecycle is the documented state machine: `following`
//! attempts into `preparing`, `preparing` commits into `committed`, a
//! `committed` maneuver completes into `returning`, a `preparing` or
//! `committed` maneuver can abort into `aborted`, and `returning` completes
//! and `aborted` aborts back into `following`. [`legal_edge`] is that table.

use vstd::prelude::*;

verus! {

/// One state of the maneuver lifecycle.
#[derive(Debug, Clone, Copy, PartialEq, Eq, Hash, Structural)]
pub enum ManeuverState {
    /// No maneuver is in flight.
    Following,
    /// The target and corridor are fixed; the maneuver seeks its claim.
    Preparing,
    /// The claim was granted; the maneuver displaces toward its target.
    Committed,
    /// The passed body is cleared; the agent steers back.
    Returning,
    /// The maneuver ended without reaching its target; the agent steers back.
    Aborted,
}

/// The maneuver states in declaration order, the contract's state order.
pub open spec fn maneuver_states() -> Seq<ManeuverState> {
    seq![
        ManeuverState::Following,
        ManeuverState::Preparing,
        ManeuverState::Committed,
        ManeuverState::Returning,
        ManeuverState::Aborted,
    ]
}

impl ManeuverState {
    /// Position of this value in declaration order, in specifications.
    pub open spec fn rank(self) -> u32 {
        match self {
            ManeuverState::Following => 0,
            ManeuverState::Preparing => 1,
            ManeuverState::Committed => 2,
            ManeuverState::Returning => 3,
            ManeuverState::Aborted => 4,
        }
    }

    /// Position of this state in declaration order.
    pub fn order(self) -> (r: u32)
        ensures
            r == self.rank(),
            r < maneuver_states().len(),
            maneuver_states()[r as int] == self,
    {
        match self {
            ManeuverState::Following => 0,
            ManeuverState::Preparing => 1,
            ManeuverState::Committed => 2,
            ManeuverState::Returning => 3,
            ManeuverState::Aborted => 4,
        }
    }
}

/// Which documented lifecycle edge a transition took.
#[derive(Debug, Clone, Copy, PartialEq, Eq, Hash, Structural)]
pub enum ManeuverEdge {
    /// `following -> preparing`.
    Attempted,
    /// `preparing -> committed`.
    Committed,
    /// `committed -> returning` or `returning -> following`.
    Completed,
    /// `preparing` or `committed` `-> aborted`, or `aborted -> following`.
    Aborted,
}

/// The maneuver edges in declaration order, the contract's edge order.
pub open spec fn maneuver_edges() -> Seq<ManeuverEdge> {
    seq![ManeuverEdge::Attempted, ManeuverEdge::Committed, ManeuverEdge::Completed, ManeuverEdge::Aborted]
}

impl ManeuverEdge {
    /// Position of this value in declaration order, in specifications.
    pub open spec fn rank(self) -> u32 {
        match self {
            ManeuverEdge::Attempted => 0,
            ManeuverEdge::Committed => 1,
            ManeuverEdge::Completed => 2,
            ManeuverEdge::Aborted => 3,
        }
    }

    /// Position of this edge in declaration order.
    pub fn order(self) -> (r: u32)
        ensures
            r == self.rank(),
            r < maneuver_edges().len(),
            maneuver_edges()[r as int] == self,
    {
        match self {
            ManeuverEdge::Attempted => 0,
            ManeuverEdge::Committed => 1,
            ManeuverEdge::Completed => 2,
            ManeuverEdge::Aborted => 3,
        }
    }
}

/// The legal transition table of the maneuver lifecycle.
pub open spec fn legal_edge(from: ManeuverState, to: ManeuverState, edge: ManeuverEdge) -> bool {
    match (from, to, edge) {
        (ManeuverState::Following, ManeuverState::Preparing, ManeuverEdge::Attempted) => true,
        (ManeuverState::Preparing, ManeuverState::Committed, ManeuverEdge::Committed) => true,
        (ManeuverState::Committed, ManeuverState::Returning, ManeuverEdge::Completed) => true,
        (ManeuverState::Returning, ManeuverState::Following, ManeuverEdge::Completed) => true,
        (ManeuverState::Aborted, ManeuverState::Following, ManeuverEdge::Aborted) => true,
        (ManeuverState::Preparing, ManeuverState::Aborted, ManeuverEdge::Aborted) => true,
        (ManeuverState::Committed, ManeuverState::Aborted, ManeuverEdge::Aborted) => true,
        _ => false,
    }
}

/// The side a displacement claims, in the agent's own travel frame.
#[derive(Debug, Clone, Copy, PartialEq, Eq, Hash, Structural)]
pub enum PassSide {
    /// Toward positive lateral offset.
    Left,
    /// Toward negative lateral offset.
    Right,
}

/// Which geometric handoff a facility transition took.
#[derive(Debug, Clone, Copy, PartialEq, Eq, Hash, Structural)]
pub enum TransitionKind {
    /// A lateral crossing of a shared band boundary.
    Lateral,
    /// A handoff at a compiled connector coincidence.
    Connector,
}

/// The selection and rejection codes a lateral tactic reports.
#[derive(Debug, Clone, Copy, PartialEq, Eq, Hash, Structural)]
pub enum ManeuverReason {
    /// A visible slower leader ahead is the obstacle the pass displaces around.
    SlowerLeader,
    /// The mode's compiled tactics carry no `pass` or `overtake` capability.
    Capability,
    /// An applicable statement prohibits passing, or no lateral target exists.
    NoPermission,
    /// No visible slower leader, no route benefit, or the leader is too far.
    NoBenefit,
    /// The facility is too narrow for the pass on the selected side.
    InsufficientWidth,
    /// No lateral target clearance or horizon, or an infeasible corridor.
    NoCorridor,
    /// The crossing would enter a traversal the rule does not permit.
    BoundaryForbidden,
}

/// The termination codes of a maneuver already in flight.
#[derive(Debug, Clone, Copy, PartialEq, Eq, Hash, Structural)]
pub enum ManeuverAbortReason {
    /// The claim was rejected by arbitration.
    ClaimRejected,
    /// The passed body disappeared.
    TargetLost,
    /// The hold timeout elapsed without a grant.
    HoldTimeout,
    /// The candidate corridor became infeasible.
    CorridorInfeasible,
    /// The predicted swept clearance fell below the commit policy's minimum.
    ClearanceLost,
    /// The crossing would enter a traversal the rule does not permit.
    BoundaryForbidden,
}

/// Why a wrong-way decision selected the opposing option.
#[derive(Debug, Clone, Copy, PartialEq, Eq, Hash, Structural)]
pub enum WrongWayReason {
    /// An applicable statement permits the opposing traversal.
    Permitted,
    /// An applicable statement obliges the opposing traversal.
    Obliged,
    /// The agent chose the opposing traversal against the rule.
    NoncompliantChoice,
}

} // verus!
