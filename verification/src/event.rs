//! Typed state transitions observed during a step.
//!
//! [`Event`] is one closed union that both modes emit through, and
//! [`EVENT_VERSION`] describes the union as a whole. Every record carries
//! [`Event::order_key`]; a step sorts its buffer by that key
//! ([`sort_by_order_key`]), so a consumer sees ascending agent first, then the
//! documented kind order ([`EventKind::order`]), then the variant's own stable
//! key, and finally the record's edge flag. The sort is stable, so records
//! that agree on the whole key keep their emission order.
//!
//! Measured payloads (distances, clearances, times, speeds, angles) are
//! carried as [`Measure`] bit patterns: they never take part in the order.

use vstd::prelude::*;
use vstd::multiset::Multiset;

use crate::ids::{
    tactic_kinds, AgentId, AgentMode, ClearanceBandId, ConflictRegionId, CrossingId, FacilityId,
    MovementDirection, MovementId, NominalDirection, PathId, PermissionEffect, TacticKind,
};
use crate::measure::Measure;
use crate::stage::{
    maneuver_edges, maneuver_states, ManeuverAbortReason, ManeuverEdge, ManeuverReason,
    ManeuverState, PassSide, TransitionKind, WrongWayReason,
};

verus! {

/// Version of the typed event schema emitted by this build.
///
/// Version 3 is the union of the lifecycle, safety, control, maneuver, rule,
/// close-pass, and articulated-chain records below; each later record was
/// appended after the existing kinds, so no existing stream reorders.
pub const EVENT_VERSION: u32 = 3;

/// Why an agent left the simulation.
#[derive(Debug, Clone, Copy, PartialEq, Eq, Hash, Structural)]
pub enum DespawnReason {
    /// The agent reached the far end of its guide path.
    ExitedPath,
}

/// Which record an [`Event`] is, without its payload.
///
/// The declaration order is the documented within-tick kind order.
#[derive(Debug, Clone, Copy, PartialEq, Eq, Hash, Structural)]
pub enum EventKind {
    /// An agent entered the world.
    Spawned,
    /// An agent left the world.
    Despawned,
    /// A yield transition began or ended.
    Yielded,
    /// Two bodies came into contact or separated.
    Collision,
    /// Two bodies entered or left the sub-threshold separation band.
    NearMiss,
    /// A body performed a crossing action its governing signal forbade.
    Violation,
    /// A body entered a safety region.
    Entry,
    /// A body left a safety region.
    Exit,
    /// An agent reached or left a stopped-and-waiting state.
    Queue,
    /// A recorded controller state changed.
    ControlTransition,
    /// An agent transitioned between two documented maneuver states.
    Maneuver,
    /// An agent handed off between two facilities.
    FacilityTransition,
    /// An agent opened or closed an opposing traversal of a facility.
    OpposingTraversal,
    /// A completed overtaking interval closed with its clearance evidence.
    ClosePass,
    /// A hitch's articulation angle crossed its compiled limit, or fell back.
    ArticulationLimitExceeded,
    /// A segment pair of an articulated-chain contact touched or separated.
    ArticulatedSegmentContact,
}

/// The event kinds in the documented within-tick order.
pub open spec fn event_kinds() -> Seq<EventKind> {
    seq![
        EventKind::Spawned,
        EventKind::Despawned,
        EventKind::Yielded,
        EventKind::Collision,
        EventKind::NearMiss,
        EventKind::Violation,
        EventKind::Entry,
        EventKind::Exit,
        EventKind::Queue,
        EventKind::ControlTransition,
        EventKind::Maneuver,
        EventKind::FacilityTransition,
        EventKind::OpposingTraversal,
        EventKind::ClosePass,
        EventKind::ArticulationLimitExceeded,
        EventKind::ArticulatedSegmentContact,
    ]
}

impl EventKind {
    /// Position of this value in declaration order, in specifications.
    pub open spec fn rank(self) -> u8 {
        match self {
            EventKind::Spawned => 0,
            EventKind::Despawned => 1,
            EventKind::Yielded => 2,
            EventKind::Collision => 3,
            EventKind::NearMiss => 4,
            EventKind::Violation => 5,
            EventKind::Entry => 6,
            EventKind::Exit => 7,
            EventKind::Queue => 8,
            EventKind::ControlTransition => 9,
            EventKind::Maneuver => 10,
            EventKind::FacilityTransition => 11,
            EventKind::OpposingTraversal => 12,
            EventKind::ClosePass => 13,
            EventKind::ArticulationLimitExceeded => 14,
            EventKind::ArticulatedSegmentContact => 15,
        }
    }

    /// Position of this kind in the documented within-tick event order.
    pub fn order(self) -> (r: u8)
        ensures
            r == self.rank(),
            r < event_kinds().len(),
            event_kinds()[r as int] == self,
    {
        match self {
            EventKind::Spawned => 0,
            EventKind::Despawned => 1,
            EventKind::Yielded => 2,
            EventKind::Collision => 3,
            EventKind::NearMiss => 4,
            EventKind::Violation => 5,
            EventKind::Entry => 6,
            EventKind::Exit => 7,
            EventKind::Queue => 8,
            EventKind::ControlTransition => 9,
            EventKind::Maneuver => 10,
            EventKind::FacilityTransition => 11,
            EventKind::OpposingTraversal => 12,
            EventKind::ClosePass => 13,
            EventKind::ArticulationLimitExceeded => 14,
            EventKind::ArticulatedSegmentContact => 15,
        }
    }
}

/// A safety region whose boundary a body can cross.
///
/// The two identifiers live in separate id spaces, so the variant tag is part
/// of the region's stable order key.
#[derive(Debug, Clone, Copy, PartialEq, Eq, Hash, Structural)]
pub enum RegionKey {
    /// The region of a compiled crossing.
    Crossing(CrossingId),
    /// A compiled conflict region.
    ConflictRegion(ConflictRegionId),
}

impl RegionKey {
    /// The dense identifier of the region within its own id space, in
    /// specifications.
    pub open spec fn dense(self) -> u32 {
        match self {
            RegionKey::Crossing(crossing) => crossing.value(),
            RegionKey::ConflictRegion(region) => region.value(),
        }
    }

    /// The tag that separates the two region id spaces, in specifications.
    pub open spec fn space(self) -> u8 {
        match self {
            RegionKey::Crossing(_) => 0,
            RegionKey::ConflictRegion(_) => 1,
        }
    }

    /// A region is its id space and its dense identifier within it.
    pub proof fn lemma_space_and_dense_identify(a: RegionKey, b: RegionKey)
        requires
            a.space() == b.space(),
            a.dense() == b.dense(),
        ensures
            a == b,
    {
        match (a, b) {
            (RegionKey::Crossing(x), RegionKey::Crossing(y)) => CrossingId::lemma_value_identifies(x, y),
            (RegionKey::ConflictRegion(x), RegionKey::ConflictRegion(y)) => ConflictRegionId::lemma_value_identifies(x, y),
            _ => {},
        }
    }

    /// Dense identifier of the region within its own id space.
    pub fn get(self) -> (r: u32)
        ensures
            r == self.dense(),
    {
        match self {
            RegionKey::Crossing(crossing) => crossing.get(),
            RegionKey::ConflictRegion(region) => region.get(),
        }
    }

    /// Tag that separates the two region id spaces in the stable order key:
    /// `0` for a crossing and `1` for a conflict region.
    pub fn tag(self) -> (r: u8)
        ensures
            r == self.space(),
    {
        match self {
            RegionKey::Crossing(_) => 0,
            RegionKey::ConflictRegion(_) => 1,
        }
    }
}

/// Which rule breach a [`Event::Violation`] records.
#[derive(Debug, Clone, Copy, PartialEq, Eq, Hash, Structural)]
pub enum ViolationKind {
    /// A vehicle crossed its stop line while the governing head forbade it.
    RanRedLight,
    /// A pedestrian entered a crossing region while its signal forbade it.
    CrossedAgainstSignal,
}

/// The violation kinds in their stable key order.
pub open spec fn violation_kinds() -> Seq<ViolationKind> {
    seq![ViolationKind::RanRedLight, ViolationKind::CrossedAgainstSignal]
}

/// The stable trace label of a violation kind.
pub open spec fn violation_label(kind: ViolationKind) -> Seq<char> {
    match kind {
        ViolationKind::RanRedLight => "ran_red_light"@,
        ViolationKind::CrossedAgainstSignal => "crossed_against_signal"@,
    }
}

impl ViolationKind {
    /// Position of this value in declaration order, in specifications.
    pub open spec fn rank(self) -> u8 {
        match self {
            ViolationKind::RanRedLight => 0,
            ViolationKind::CrossedAgainstSignal => 1,
        }
    }

    /// Position of this kind in the stable order key.
    pub fn order(self) -> (r: u8)
        ensures
            r == self.rank(),
            r < violation_kinds().len(),
            violation_kinds()[r as int] == self,
    {
        match self {
            ViolationKind::RanRedLight => 0,
            ViolationKind::CrossedAgainstSignal => 1,
        }
    }

    /// Short stable label for traces and inspectors.
    pub fn label(self) -> (r: &'static str)
        ensures
            r@ == violation_label(self),
    {
        match self {
            ViolationKind::RanRedLight => "ran_red_light",
            ViolationKind::CrossedAgainstSignal => "crossed_against_signal",
        }
    }
}

/// Which controller state a [`Event::ControlTransition`] records.
#[derive(Debug, Clone, Copy, PartialEq, Eq, Hash, Structural)]
pub enum ControlTransitionKind {
    /// A vehicle began or ended holding at a signal-controlled stop line.
    SignalStop,
    /// A pedestrian began or ended waiting at a signal-controlled crossing.
    CrossingWait,
}

/// The control transition kinds in their stable key order.
pub open spec fn control_transition_kinds() -> Seq<ControlTransitionKind> {
    seq![ControlTransitionKind::SignalStop, ControlTransitionKind::CrossingWait]
}

/// The stable trace label of a control transition kind.
pub open spec fn control_transition_label(kind: ControlTransitionKind) -> Seq<char> {
    match kind {
        ControlTransitionKind::SignalStop => "signal_stop"@,
        ControlTransitionKind::CrossingWait => "crossing_wait"@,
    }
}

impl ControlTransitionKind {
    /// Position of this value in declaration order, in specifications.
    pub open spec fn rank(self) -> u8 {
        match self {
            ControlTransitionKind::SignalStop => 0,
            ControlTransitionKind::CrossingWait => 1,
        }
    }

    /// Position of this kind in the stable order key.
    pub fn order(self) -> (r: u8)
        ensures
            r == self.rank(),
            r < control_transition_kinds().len(),
            control_transition_kinds()[r as int] == self,
    {
        match self {
            ControlTransitionKind::SignalStop => 0,
            ControlTransitionKind::CrossingWait => 1,
        }
    }

    /// Short stable label for traces and inspectors.
    pub fn label(self) -> (r: &'static str)
        ensures
            r@ == control_transition_label(self),
    {
        match self {
            ControlTransitionKind::SignalStop => "signal_stop",
            ControlTransitionKind::CrossingWait => "crossing_wait",
        }
    }
}

/// The closed code set an [`Event::Maneuver`] records as its reason.
///
/// The selection and rejection codes of [`ManeuverReason`] and the termination
/// codes of [`ManeuverAbortReason`] map into this one set, so no code has a
/// second spelling; [`Self::Settled`] is the completing edge's own reason.
#[derive(Debug, Clone, Copy, PartialEq, Eq, Hash, Structural)]
pub enum ManeuverReasonCode {
    /// Selection: a visible slower leader ahead is the obstacle.
    SlowerLeader,
    /// Rejection: no `pass` or `overtake` capability.
    Capability,
    /// Rejection: passing is prohibited or no lateral target exists.
    NoPermission,
    /// Rejection: no slower leader, no route benefit, or out of reach.
    NoBenefit,
    /// Rejection: the facility is too narrow on the selected side.
    InsufficientWidth,
    /// Rejection: no lateral clearance or horizon, or infeasible corridor.
    NoCorridor,
    /// Rejection or termination: the crossing enters a forbidden traversal.
    BoundaryForbidden,
    /// Termination: the claim was rejected by arbitration.
    ClaimRejected,
    /// Termination: the passed body disappeared.
    TargetLost,
    /// Termination: the hold timeout elapsed without a grant.
    HoldTimeout,
    /// Termination: the candidate corridor became infeasible.
    CorridorInfeasible,
    /// Termination: the predicted swept clearance fell below the minimum.
    ClearanceLost,
    /// Completion: the maneuver reached its target offset and settled.
    Settled,
}

/// The contract's code of each maneuver reason.
pub open spec fn maneuver_reason_label(code: ManeuverReasonCode) -> Seq<char> {
    match code {
        ManeuverReasonCode::SlowerLeader => "slower_leader"@,
        ManeuverReasonCode::Capability => "capability"@,
        ManeuverReasonCode::NoPermission => "no_permission"@,
        ManeuverReasonCode::NoBenefit => "no_benefit"@,
        ManeuverReasonCode::InsufficientWidth => "insufficient_width"@,
        ManeuverReasonCode::NoCorridor => "no_corridor"@,
        ManeuverReasonCode::BoundaryForbidden => "boundary_forbidden"@,
        ManeuverReasonCode::ClaimRejected => "claim_rejected"@,
        ManeuverReasonCode::TargetLost => "target_lost"@,
        ManeuverReasonCode::HoldTimeout => "hold_timeout"@,
        ManeuverReasonCode::CorridorInfeasible => "corridor_infeasible"@,
        ManeuverReasonCode::ClearanceLost => "clearance_lost"@,
        ManeuverReasonCode::Settled => "settled"@,
    }
}

/// The event code of a selection or rejection reason: the variant of the
/// same name.
pub open spec fn selection_code(reason: ManeuverReason) -> ManeuverReasonCode {
    match reason {
        ManeuverReason::SlowerLeader => ManeuverReasonCode::SlowerLeader,
        ManeuverReason::Capability => ManeuverReasonCode::Capability,
        ManeuverReason::NoPermission => ManeuverReasonCode::NoPermission,
        ManeuverReason::NoBenefit => ManeuverReasonCode::NoBenefit,
        ManeuverReason::InsufficientWidth => ManeuverReasonCode::InsufficientWidth,
        ManeuverReason::NoCorridor => ManeuverReasonCode::NoCorridor,
        ManeuverReason::BoundaryForbidden => ManeuverReasonCode::BoundaryForbidden,
    }
}

/// The event code of a termination reason: the variant of the same name.
pub open spec fn termination_code(reason: ManeuverAbortReason) -> ManeuverReasonCode {
    match reason {
        ManeuverAbortReason::ClaimRejected => ManeuverReasonCode::ClaimRejected,
        ManeuverAbortReason::TargetLost => ManeuverReasonCode::TargetLost,
        ManeuverAbortReason::HoldTimeout => ManeuverReasonCode::HoldTimeout,
        ManeuverAbortReason::CorridorInfeasible => ManeuverReasonCode::CorridorInfeasible,
        ManeuverAbortReason::ClearanceLost => ManeuverReasonCode::ClearanceLost,
        ManeuverAbortReason::BoundaryForbidden => ManeuverReasonCode::BoundaryForbidden,
    }
}

impl ManeuverReasonCode {
    /// Short stable label for traces and inspectors, the contract's code.
    pub fn label(self) -> (r: &'static str)
        ensures
            r@ == maneuver_reason_label(self),
    {
        match self {
            ManeuverReasonCode::SlowerLeader => "slower_leader",
            ManeuverReasonCode::Capability => "capability",
            ManeuverReasonCode::NoPermission => "no_permission",
            ManeuverReasonCode::NoBenefit => "no_benefit",
            ManeuverReasonCode::InsufficientWidth => "insufficient_width",
            ManeuverReasonCode::NoCorridor => "no_corridor",
            ManeuverReasonCode::BoundaryForbidden => "boundary_forbidden",
            ManeuverReasonCode::ClaimRejected => "claim_rejected",
            ManeuverReasonCode::TargetLost => "target_lost",
            ManeuverReasonCode::HoldTimeout => "hold_timeout",
            ManeuverReasonCode::CorridorInfeasible => "corridor_infeasible",
            ManeuverReasonCode::ClearanceLost => "clearance_lost",
            ManeuverReasonCode::Settled => "settled",
        }
    }

    /// The event code of a selection or rejection reason.
    pub fn from_selection(reason: ManeuverReason) -> (r: ManeuverReasonCode)
        ensures
            r == selection_code(reason),
    {
        match reason {
            ManeuverReason::SlowerLeader => ManeuverReasonCode::SlowerLeader,
            ManeuverReason::Capability => ManeuverReasonCode::Capability,
            ManeuverReason::NoPermission => ManeuverReasonCode::NoPermission,
            ManeuverReason::NoBenefit => ManeuverReasonCode::NoBenefit,
            ManeuverReason::InsufficientWidth => ManeuverReasonCode::InsufficientWidth,
            ManeuverReason::NoCorridor => ManeuverReasonCode::NoCorridor,
            ManeuverReason::BoundaryForbidden => ManeuverReasonCode::BoundaryForbidden,
        }
    }

    /// The event code of a termination reason.
    pub fn from_termination(reason: ManeuverAbortReason) -> (r: ManeuverReasonCode)
        ensures
            r == termination_code(reason),
    {
        match reason {
            ManeuverAbortReason::ClaimRejected => ManeuverReasonCode::ClaimRejected,
            ManeuverAbortReason::TargetLost => ManeuverReasonCode::TargetLost,
            ManeuverAbortReason::HoldTimeout => ManeuverReasonCode::HoldTimeout,
            ManeuverAbortReason::CorridorInfeasible => ManeuverReasonCode::CorridorInfeasible,
            ManeuverAbortReason::ClearanceLost => ManeuverReasonCode::ClearanceLost,
            ManeuverAbortReason::BoundaryForbidden => ManeuverReasonCode::BoundaryForbidden,
        }
    }
}

/// One clearance band's duration within one overtaking interval.
#[derive(Debug, Clone, Copy, PartialEq, Eq, Hash, Structural)]
pub struct ClosePassBand {
    /// The band's stable compiled identifier.
    pub band: ClearanceBandId,
    /// Seconds the passing pair's clearance was at or below the band's
    /// threshold while the pair was alongside.
    pub duration_s: Measure,
}

/// A typed transition emitted by a step.
///
/// Records carry dense identifiers and unit-suffixed measures. See
/// [`Event::order_key`] for the documented within-tick order.
#[allow(inconsistent_fields)]
#[derive(Debug, Clone, PartialEq, Eq)]
pub enum Event {
    /// An agent entered the world at a path position.
    Spawned { agent: AgentId, mode: AgentMode, path: PathId, distance_m: Measure },
    /// An agent left the world.
    Despawned { agent: AgentId, path: PathId, reason: DespawnReason },
    /// A vehicle began (`yielding`) or ended yielding to an occupied crossing.
    Yielded { agent: AgentId, crossing: CrossingId, yielding: bool },
    /// Two bodies came into contact (`contacting`) or separated; `agent` is
    /// the lower id of the pair and `other` the higher.
    Collision { agent: AgentId, other: AgentId, clearance_m: Measure, contacting: bool },
    /// Two bodies entered (`entering`) or left the near-miss band; `agent` is
    /// the lower id of the pair and `other` the higher.
    NearMiss { agent: AgentId, other: AgentId, clearance_m: Measure, entering: bool },
    /// A body performed a crossing action its governing signal forbade.
    Violation { agent: AgentId, kind: ViolationKind },
    /// A body entered a safety region.
    Entry { agent: AgentId, region: RegionKey },
    /// A body left a safety region.
    Exit { agent: AgentId, region: RegionKey },
    /// An agent came to rest (`joined`) or moved off.
    Queue { agent: AgentId, joined: bool },
    /// A recorded controller state began (`active`) or ended.
    ControlTransition { agent: AgentId, control: ControlTransitionKind, active: bool },
    /// An agent transitioned between two documented maneuver states.
    Maneuver {
        agent: AgentId,
        kind: TacticKind,
        from: ManeuverState,
        to: ManeuverState,
        edge: ManeuverEdge,
        partner: Option<AgentId>,
        source_facility: FacilityId,
        target_facility: Option<FacilityId>,
        target_offset_m: Measure,
        side: PassSide,
        reason: ManeuverReasonCode,
    },
    /// An agent handed off between two facilities.
    FacilityTransition {
        agent: AgentId,
        from_facility: FacilityId,
        to_facility: FacilityId,
        from_direction: MovementDirection,
        to_direction: MovementDirection,
        via: TransitionKind,
        side: PassSide,
        s_m: Measure,
        d_m: Measure,
        permitted: bool,
    },
    /// An agent opened (`entering`) or closed an opposing traversal.
    OpposingTraversal {
        agent: AgentId,
        facility: FacilityId,
        movement: Option<MovementId>,
        direction: MovementDirection,
        nominal_direction: NominalDirection,
        perceived_rule: Option<PermissionEffect>,
        reason: WrongWayReason,
        violating: bool,
        entering: bool,
    },
    /// A completed overtaking interval closed with its clearance evidence;
    /// `agent` is the passing body and `partner` the passed body.
    ClosePass {
        agent: AgentId,
        partner: AgentId,
        facility: FacilityId,
        side: PassSide,
        min_clearance_m: Measure,
        min_clearance_time_s: Measure,
        relative_speed_mps: Measure,
        bands: Vec<ClosePassBand>,
        violating_bands: Vec<ClearanceBandId>,
        crossed_boundary: bool,
        entered_opposing: bool,
    },
    /// A hitch's angle exceeded its limit (`exceeding`) or returned inside it.
    ArticulationLimitExceeded {
        agent: AgentId,
        hitch_index: u32,
        angle_rad: Measure,
        limit_rad: Measure,
        exceeding: bool,
    },
    /// A segment pair of a chain contact touched (`contacting`) or separated.
    ArticulatedSegmentContact {
        agent: AgentId,
        agent_segment: Option<u32>,
        other: AgentId,
        other_segment: Option<u32>,
        clearance_m: Measure,
        contacting: bool,
    },
}

/// The order-key spelling of an edge flag: closed (`false`) before open.
pub open spec fn flag(b: bool) -> u32 {
    if b { 1 } else { 0 }
}

/// The order-key component of an optional facility: absent is `0` and a
/// present one its dense index plus one.
pub open spec fn facility_component(facility: Option<FacilityId>) -> u32 {
    match facility {
        Some(f) => (f.value() + 1) as u32,
        None => 0,
    }
}

/// The order-key component of an optional movement, on the facility rule.
pub open spec fn movement_component(movement: Option<MovementId>) -> u32 {
    match movement {
        Some(m) => (m.value() + 1) as u32,
        None => 0,
    }
}

/// The within-tick order key.
pub type OrderKey = (u32, u8, u8, u32, u32, u32, u32, u32);

/// The agent an event is about.
pub open spec fn subject(e: Event) -> AgentId {
    match e {
        Event::Spawned { agent, .. } => agent,
        Event::Despawned { agent, .. } => agent,
        Event::Yielded { agent, .. } => agent,
        Event::Collision { agent, .. } => agent,
        Event::NearMiss { agent, .. } => agent,
        Event::Violation { agent, .. } => agent,
        Event::Entry { agent, .. } => agent,
        Event::Exit { agent, .. } => agent,
        Event::Queue { agent, .. } => agent,
        Event::ControlTransition { agent, .. } => agent,
        Event::Maneuver { agent, .. } => agent,
        Event::FacilityTransition { agent, .. } => agent,
        Event::OpposingTraversal { agent, .. } => agent,
        Event::ClosePass { agent, .. } => agent,
        Event::ArticulationLimitExceeded { agent, .. } => agent,
        Event::ArticulatedSegmentContact { agent, .. } => agent,
    }
}

/// Which record an event is.
pub open spec fn kind_of(e: Event) -> EventKind {
    match e {
        Event::Spawned { .. } => EventKind::Spawned,
        Event::Despawned { .. } => EventKind::Despawned,
        Event::Yielded { .. } => EventKind::Yielded,
        Event::Collision { .. } => EventKind::Collision,
        Event::NearMiss { .. } => EventKind::NearMiss,
        Event::Violation { .. } => EventKind::Violation,
        Event::Entry { .. } => EventKind::Entry,
        Event::Exit { .. } => EventKind::Exit,
        Event::Queue { .. } => EventKind::Queue,
        Event::ControlTransition { .. } => EventKind::ControlTransition,
        Event::Maneuver { .. } => EventKind::Maneuver,
        Event::FacilityTransition { .. } => EventKind::FacilityTransition,
        Event::OpposingTraversal { .. } => EventKind::OpposingTraversal,
        Event::ClosePass { .. } => EventKind::ClosePass,
        Event::ArticulationLimitExceeded { .. } => EventKind::ArticulationLimitExceeded,
        Event::ArticulatedSegmentContact { .. } => EventKind::ArticulatedSegmentContact,
    }
}

/// The documented within-tick order key of a record: the agent, the kind's
/// position, the key-space tag, then up to five ascending components of the
/// variant's own key, the last of which is its edge flag.
pub open spec fn order_key_of(e: Event) -> OrderKey {
    let a = subject(e).value();
    let k = kind_of(e).rank();
    match e {
        Event::Spawned { path, .. } => (a, k, 0, path.value(), 0, 0, 0, 0),
        Event::Despawned { path, .. } => (a, k, 0, path.value(), 0, 0, 0, 0),
        Event::Yielded { crossing, yielding, .. } => (a, k, 0, crossing.value(), flag(yielding), 0, 0, 0),
        Event::Collision { other, contacting, .. } => (a, k, 0, other.value(), flag(contacting), 0, 0, 0),
        Event::NearMiss { other, entering, .. } => (a, k, 0, other.value(), flag(entering), 0, 0, 0),
        Event::Violation { kind, .. } => (a, k, 0, kind.rank() as u32, 0, 0, 0, 0),
        Event::Entry { region, .. } => (a, k, region.space(), region.dense(), 0, 0, 0, 0),
        Event::Exit { region, .. } => (a, k, region.space(), region.dense(), 0, 0, 0, 0),
        Event::Queue { joined, .. } => (a, k, 0, 0, flag(joined), 0, 0, 0),
        Event::ControlTransition { control, active, .. } => (
            a,
            k,
            0,
            control.rank() as u32,
            flag(active),
            0,
            0,
            0,
        ),
        Event::Maneuver { kind, target_facility, from, to, edge, .. } => (
            a,
            k,
            0,
            kind.rank(),
            facility_component(target_facility),
            from.rank(),
            to.rank(),
            edge.rank(),
        ),
        Event::FacilityTransition { from_facility, to_facility, .. } => (
            a,
            k,
            0,
            from_facility.value(),
            to_facility.value(),
            0,
            0,
            0,
        ),
        Event::OpposingTraversal { facility, movement, entering, .. } => (
            a,
            k,
            0,
            facility.value(),
            movement_component(movement),
            flag(entering),
            0,
            0,
        ),
        Event::ClosePass { partner, facility, .. } => (a, k, 0, partner.value(), facility.value(), 0, 0, 0),
        Event::ArticulationLimitExceeded { hitch_index, exceeding, .. } => (
            a,
            k,
            0,
            hitch_index,
            flag(exceeding),
            0,
            0,
            0,
        ),
        Event::ArticulatedSegmentContact { other, contacting, .. } => (
            a,
            k,
            0,
            other.value(),
            flag(contacting),
            0,
            0,
            0,
        ),
    }
}

/// Lexicographic `<=` on the order-key slots from the eighth on.
pub open spec fn key_le_from7(x: OrderKey, y: OrderKey) -> bool {
    x.7 <= y.7
}

/// Lexicographic `<=` on the order-key slots from the seventh on.
pub open spec fn key_le_from6(x: OrderKey, y: OrderKey) -> bool {
    x.6 < y.6 || (x.6 == y.6 && key_le_from7(x, y))
}

/// Lexicographic `<=` on the order-key slots from the sixth on.
pub open spec fn key_le_from5(x: OrderKey, y: OrderKey) -> bool {
    x.5 < y.5 || (x.5 == y.5 && key_le_from6(x, y))
}

/// Lexicographic `<=` on the order-key slots from the fifth on.
pub open spec fn key_le_from4(x: OrderKey, y: OrderKey) -> bool {
    x.4 < y.4 || (x.4 == y.4 && key_le_from5(x, y))
}

/// Lexicographic `<=` on the order-key slots from the fourth on.
pub open spec fn key_le_from3(x: OrderKey, y: OrderKey) -> bool {
    x.3 < y.3 || (x.3 == y.3 && key_le_from4(x, y))
}

/// Lexicographic `<=` on the order-key slots from the third on.
pub open spec fn key_le_from2(x: OrderKey, y: OrderKey) -> bool {
    x.2 < y.2 || (x.2 == y.2 && key_le_from3(x, y))
}

/// Lexicographic `<=` on the order-key slots from the second on.
pub open spec fn key_le_from1(x: OrderKey, y: OrderKey) -> bool {
    x.1 < y.1 || (x.1 == y.1 && key_le_from2(x, y))
}

/// Lexicographic `<=` on order keys, the order of Rust's tuple comparison.
pub open spec fn key_le(x: OrderKey, y: OrderKey) -> bool {
    x.0 < y.0 || (x.0 == y.0 && key_le_from1(x, y))
}

/// Lexicographic `<` on order keys.
pub open spec fn key_lt(x: OrderKey, y: OrderKey) -> bool {
    key_le(x, y) && x != y
}

/// The exec spelling of an edge flag.
fn flag_value(b: bool) -> (r: u32)
    ensures
        r == flag(b),
{
    if b {
        1
    } else {
        0
    }
}

/// The order-key component of an optional facility.
///
/// An absent component is `0` and a present one its dense index plus one, so
/// an absent component orders before every present one, exactly as
/// `Option`'s own order does.
fn facility_key(facility: Option<FacilityId>) -> (r: u32)
    ensures
        r == facility_component(facility),
{
    match facility {
        Some(facility) => facility.get() + 1,
        None => 0,
    }
}

/// The order-key component of an optional movement, on the facility rule.
fn movement_key(movement: Option<MovementId>) -> (r: u32)
    ensures
        r == movement_component(movement),
{
    match movement {
        Some(movement) => movement.get() + 1,
        None => 0,
    }
}

impl Event {
    /// The agent this event is about: the lower id of a body pair, and the
    /// passing agent of a close pass.
    pub fn agent(&self) -> (r: AgentId)
        ensures
            r == subject(*self),
    {
        match self {
            Event::Spawned { agent, .. } => *agent,
            Event::Despawned { agent, .. } => *agent,
            Event::Yielded { agent, .. } => *agent,
            Event::Collision { agent, .. } => *agent,
            Event::NearMiss { agent, .. } => *agent,
            Event::Violation { agent, .. } => *agent,
            Event::Entry { agent, .. } => *agent,
            Event::Exit { agent, .. } => *agent,
            Event::Queue { agent, .. } => *agent,
            Event::ControlTransition { agent, .. } => *agent,
            Event::Maneuver { agent, .. } => *agent,
            Event::FacilityTransition { agent, .. } => *agent,
            Event::OpposingTraversal { agent, .. } => *agent,
            Event::ClosePass { agent, .. } => *agent,
            Event::ArticulationLimitExceeded { agent, .. } => *agent,
            Event::ArticulatedSegmentContact { agent, .. } => *agent,
        }
    }

    /// Which record this event is, without its payload.
    pub fn kind(&self) -> (r: EventKind)
        ensures
            r == kind_of(*self),
    {
        match self {
            Event::Spawned { .. } => EventKind::Spawned,
            Event::Despawned { .. } => EventKind::Despawned,
            Event::Yielded { .. } => EventKind::Yielded,
            Event::Collision { .. } => EventKind::Collision,
            Event::NearMiss { .. } => EventKind::NearMiss,
            Event::Violation { .. } => EventKind::Violation,
            Event::Entry { .. } => EventKind::Entry,
            Event::Exit { .. } => EventKind::Exit,
            Event::Queue { .. } => EventKind::Queue,
            Event::ControlTransition { .. } => EventKind::ControlTransition,
            Event::Maneuver { .. } => EventKind::Maneuver,
            Event::FacilityTransition { .. } => EventKind::FacilityTransition,
            Event::OpposingTraversal { .. } => EventKind::OpposingTraversal,
            Event::ClosePass { .. } => EventKind::ClosePass,
            Event::ArticulationLimitExceeded { .. } => EventKind::ArticulationLimitExceeded,
            Event::ArticulatedSegmentContact { .. } => EventKind::ArticulatedSegmentContact,
        }
    }
    /// The documented within-tick order key of this record.
    ///
    /// The slots are compared in order: the ascending agent the record is
    /// about, the ascending [`EventKind::order`], a tag that separates the
    /// variant's key space, then the variant's own stable key in up to five
    /// ascending components, the last of which is the record's edge flag. A
    /// component that names a tactic, maneuver state, or maneuver edge is that
    /// enum's declaration order, and an optional component is absent-first.
    pub fn order_key(&self) -> (r: OrderKey)
        ensures
            r == order_key_of(*self),
    {
        let kind = self.kind().order();
        match self {
            Event::Spawned { agent, path, .. } => (agent.get(), kind, 0, path.get(), 0, 0, 0, 0),
            Event::Despawned { agent, path, .. } => (agent.get(), kind, 0, path.get(), 0, 0, 0, 0),
            Event::Yielded { agent, crossing, yielding } => (
                agent.get(),
                kind,
                0,
                crossing.get(),
                flag_value(*yielding),
                0,
                0,
                0,
            ),
            Event::Collision { agent, other, contacting, .. } => (
                agent.get(),
                kind,
                0,
                other.get(),
                flag_value(*contacting),
                0,
                0,
                0,
            ),
            Event::NearMiss { agent, other, entering, .. } => (
                agent.get(),
                kind,
                0,
                other.get(),
                flag_value(*entering),
                0,
                0,
                0,
            ),
            Event::Violation { agent, kind: breach } => (
                agent.get(),
                kind,
                0,
                breach.order() as u32,
                0,
                0,
                0,
                0,
            ),
            Event::Entry { agent, region } => (agent.get(), kind, region.tag(), region.get(), 0, 0, 0, 0),
            Event::Exit { agent, region } => (agent.get(), kind, region.tag(), region.get(), 0, 0, 0, 0),
            Event::Queue { agent, joined } => (agent.get(), kind, 0, 0, flag_value(*joined), 0, 0, 0),
            Event::ControlTransition { agent, control, active } => (
                agent.get(),
                kind,
                0,
                control.order() as u32,
                flag_value(*active),
                0,
                0,
                0,
            ),
            Event::Maneuver { agent, kind: tactic, target_facility, from, to, edge, .. } => (
                agent.get(),
                kind,
                0,
                tactic.order(),
                facility_key(*target_facility),
                from.order(),
                to.order(),
                edge.order(),
            ),
            Event::FacilityTransition { agent, from_facility, to_facility, .. } => (
                agent.get(),
                kind,
                0,
                from_facility.get(),
                to_facility.get(),
                0,
                0,
                0,
            ),
            Event::OpposingTraversal { agent, facility, movement, entering, .. } => (
                agent.get(),
                kind,
                0,
                facility.get(),
                movement_key(*movement),
                flag_value(*entering),
                0,
                0,
            ),
            Event::ClosePass { agent, partner, facility, .. } => (
                agent.get(),
                kind,
                0,
                partner.get(),
                facility.get(),
                0,
                0,
                0,
            ),
            Event::ArticulationLimitExceeded { agent, hitch_index, exceeding, .. } => (
                agent.get(),
                kind,
                0,
                *hitch_index,
                flag_value(*exceeding),
                0,
                0,
                0,
            ),
            Event::ArticulatedSegmentContact { agent, other, contacting, .. } => (
                agent.get(),
                kind,
                0,
                other.get(),
                flag_value(*contacting),
                0,
                0,
                0,
            ),
        }
    }
}


/// Lexicographic `<` on order keys.
pub open spec fn key_before(x: OrderKey, y: OrderKey) -> bool {
    key_le(x, y) && x != y
}

/// Lexicographic `<=` on order keys is total.
pub proof fn lemma_key_le_total(x: OrderKey, y: OrderKey)
    ensures
        key_le(x, y) || key_le(y, x),
{
}

/// Lexicographic `<=` on order keys is transitive.
pub proof fn lemma_key_le_transitive(x: OrderKey, y: OrderKey, z: OrderKey)
    requires
        key_le(x, y),
        key_le(y, z),
    ensures
        key_le(x, z),
{
}

/// Lexicographic `<=` on order keys is antisymmetric.
pub proof fn lemma_key_le_antisymmetric(x: OrderKey, y: OrderKey)
    requires
        key_le(x, y),
        key_le(y, x),
    ensures
        x == y,
{
}

/// Whether a sequence of records is in the documented within-tick order.
pub open spec fn sorted_by_order_key(s: Seq<Event>) -> bool {
    forall|i: int, j: int| 0 <= i < j < s.len() ==> key_le(order_key_of(s[i]), order_key_of(s[j]))
}

/// The records that carry exactly the order key `k`.
pub open spec fn keyed(k: OrderKey) -> spec_fn(Event) -> bool {
    |e: Event| order_key_of(e) == k
}

/// The exec comparison of two order keys: lexicographic `<`.
fn key_precedes(x: OrderKey, y: OrderKey) -> (r: bool)
    ensures
        r == key_before(x, y),
{
    if x.0 != y.0 {
        return x.0 < y.0;
    }
    if x.1 != y.1 {
        return x.1 < y.1;
    }
    if x.2 != y.2 {
        return x.2 < y.2;
    }
    if x.3 != y.3 {
        return x.3 < y.3;
    }
    if x.4 != y.4 {
        return x.4 < y.4;
    }
    if x.5 != y.5 {
        return x.5 < y.5;
    }
    if x.6 != y.6 {
        return x.6 < y.6;
    }
    x.7 < y.7
}

/// Splitting a sequence at an insertion point distributes a filter over the
/// inserted element.
proof fn lemma_filter_insert(s: Seq<Event>, p: int, e: Event, pred: spec_fn(Event) -> bool)
    requires
        0 <= p <= s.len(),
    ensures
        s.insert(p, e).filter(pred) == s.subrange(0, p).filter(pred) + seq![e].filter(pred)
            + s.subrange(p, s.len() as int).filter(pred),
        s.filter(pred) == s.subrange(0, p).filter(pred) + s.subrange(p, s.len() as int).filter(pred),
{
    let left = s.subrange(0, p);
    let right = s.subrange(p, s.len() as int);
    assert(s.insert(p, e) =~= (left + seq![e]) + right);
    assert(s =~= left + right);
    Seq::filter_distributes_over_add(left + seq![e], right, pred);
    Seq::filter_distributes_over_add(left, seq![e], pred);
    Seq::filter_distributes_over_add(left, right, pred);
}

/// A filter that no element satisfies is empty.
proof fn lemma_filter_none(s: Seq<Event>, pred: spec_fn(Event) -> bool)
    requires
        forall|i: int| 0 <= i < s.len() ==> !pred(s[i]),
    ensures
        s.filter(pred) == Seq::<Event>::empty(),
    decreases s.len(),
{
    reveal(Seq::filter);
    if s.len() > 0 {
        lemma_filter_none(s.drop_last(), pred);
    }
}

/// Sort a step's buffer into the documented within-tick order.
///
/// The sort is stable: records that carry the same order key keep their
/// relative emission order, so only identical keys can tie and their order
/// is the order they were produced in.
pub fn sort_by_order_key(events: &mut Vec<Event>)
    ensures
        sorted_by_order_key(final(events)@),
        forall|k: OrderKey| #[trigger] final(events)@.filter(keyed(k)) == old(events)@.filter(keyed(k)),
        final(events)@.to_multiset() == old(events)@.to_multiset(),
{
    broadcast use vstd::seq_lib::group_to_multiset_ensures, vstd::multiset::group_multiset_properties;

    let ghost unsorted = events@;
    let mut sorted: Vec<Event> = Vec::new();
    proof {
        assert(unsorted.subrange(0, unsorted.len() as int) =~= unsorted);
        assert(sorted@.to_multiset() =~= Multiset::<Event>::empty());
        assert(unsorted.subrange(unsorted.len() as int, unsorted.len() as int) =~= Seq::<Event>::empty());
        assert forall|k: OrderKey| #[trigger] sorted@.filter(keyed(k)) == unsorted.subrange(
            events.len() as int,
            unsorted.len() as int,
        ).filter(keyed(k)) by {
            lemma_filter_none(sorted@, keyed(k));
            lemma_filter_none(unsorted.subrange(unsorted.len() as int, unsorted.len() as int), keyed(k));
        }
    }
    while events.len() > 0
        invariant
            events@ == unsorted.subrange(0, events.len() as int),
            events.len() <= unsorted.len(),
            sorted_by_order_key(sorted@),
            forall|k: OrderKey| #[trigger] sorted@.filter(keyed(k)) == unsorted.subrange(
                events.len() as int,
                unsorted.len() as int,
            ).filter(keyed(k)),
            unsorted.to_multiset() == events@.to_multiset().add(sorted@.to_multiset()),
        decreases events.len(),
    {
        let ghost before = events@;
        let ghost sorted_before = sorted@;
        let event = events.pop().unwrap();
        let key = event.order_key();
        let mut position: usize = 0;
        while position < sorted.len() && key_precedes(sorted[position].order_key(), key)
            invariant
                position <= sorted.len(),
                sorted@ == sorted_before,
                key == order_key_of(event),
                forall|j: int| 0 <= j < position ==> key_before(order_key_of(sorted@[j]), key),
            decreases sorted.len() - position,
        {
            position = position + 1;
        }
        proof {
            let n = sorted_before.len() as int;
            let p = position as int;
            assert(position < sorted.len() ==> !key_before(order_key_of(sorted_before[p]), key));
            assert forall|j: int| p <= j < n implies key_le(key, order_key_of(sorted_before[j])) by {
                lemma_key_le_total(key, order_key_of(sorted_before[p]));
                lemma_key_le_transitive(key, order_key_of(sorted_before[p]), order_key_of(sorted_before[j]));
            }
            let inserted = sorted_before.insert(p, event);
            assert forall|i: int, j: int| 0 <= i < j < inserted.len() implies key_le(
                order_key_of(inserted[i]),
                order_key_of(inserted[j]),
            ) by {
                if j < p {
                } else if j == p {
                } else if i < p {
                    lemma_key_le_transitive(order_key_of(inserted[i]), key, order_key_of(inserted[j]));
                } else if i == p {
                } else {
                }
            }
            let m = events.len() as int;
            assert(unsorted.subrange(m, unsorted.len() as int) =~= seq![event] + unsorted.subrange(
                m + 1,
                unsorted.len() as int,
            ));
            assert forall|k: OrderKey| #[trigger] inserted.filter(keyed(k)) == unsorted.subrange(
                m,
                unsorted.len() as int,
            ).filter(keyed(k)) by {
                lemma_filter_insert(sorted_before, p, event, keyed(k));
                reveal_with_fuel(Seq::filter, 2);
                Seq::filter_distributes_over_add(seq![event], unsorted.subrange(m + 1, unsorted.len() as int), keyed(k));
                if order_key_of(event) == k {
                    lemma_filter_none(sorted_before.subrange(0, p), keyed(k));
                    assert(sorted_before.subrange(0, p).filter(keyed(k)) + seq![event].filter(keyed(k))
                        =~= seq![event].filter(keyed(k)));
                } else {
                    assert(seq![event].filter(keyed(k)) =~= Seq::<Event>::empty());
                    assert(sorted_before.subrange(0, p).filter(keyed(k)) + seq![event].filter(keyed(k))
                        =~= sorted_before.subrange(0, p).filter(keyed(k)));
                }
            }
            assert(before =~= events@.push(event));
            sorted_before.insert_ensures(p, event);
            vstd::seq_lib::to_multiset_insert(sorted_before, p, event);
            vstd::seq_lib::to_multiset_build(events@, event);
            assert(unsorted.to_multiset() =~= events@.to_multiset().add(inserted.to_multiset()));
        }
        sorted.insert(position, event);
    }
    proof {
        assert(unsorted.subrange(0, unsorted.len() as int) =~= unsorted);
        assert(events@ =~= Seq::<Event>::empty());
        assert(events@.to_multiset() =~= Multiset::<Event>::empty());
    }
    *events = sorted;
}

/// The within-tick order leads with the agent, then the kind: every record of
/// a lower agent id sorts before every record of a higher one, and among one
/// agent's records a kind earlier in the documented kind order sorts first.
pub proof fn law_order_leads_with_agent_then_kind(first: Event, second: Event)
    ensures
        subject(first).value() < subject(second).value() ==> key_lt(order_key_of(first), order_key_of(second)),
        subject(first) == subject(second) && kind_of(first).rank() < kind_of(second).rank() ==> key_lt(
            order_key_of(first),
            order_key_of(second),
        ),
{
}

} // verus!
