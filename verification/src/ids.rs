//! Dense identifiers and the closed mode and direction sets the kernel's
//! records carry.
//!
//! Every identifier is an array position: `from_index` names the slot and
//! `get` is the dense `u32` the records and their order keys carry. A dense
//! position of a compiled scenario object never reaches `u32::MAX`, so the
//! optional order-key components can always encode a present identifier as
//! its value plus one.

use vstd::prelude::*;

verus! {

/// Stable identifier of one agent slot, unique across modes.
#[derive(Debug, Clone, Copy, PartialEq, Eq, Hash, Structural)]
pub struct AgentId {
    id: u32,
}

impl AgentId {
    /// The identifier of the agent in slot `index`, in specifications.
    pub closed spec fn at(index: int) -> AgentId {
        AgentId { id: index as u32 }
    }

    /// The identifier of a slot names that slot.
    pub broadcast proof fn lemma_at_value(index: int)
        requires
            0 <= index <= u32::MAX,
        ensures
            #[trigger] AgentId::at(index).value() == index,
    {
    }

    /// An agent identifier is its dense value.
    pub broadcast proof fn lemma_value_identifies(a: AgentId, b: AgentId)
        requires
            #[trigger] a.value() == #[trigger] b.value(),
        ensures
            a == b,
    {
    }

    /// The identifier of the agent in slot `index`.
    pub fn from_index(index: usize) -> (r: AgentId)
        requires
            index <= u32::MAX,
        ensures
            r.value() == index,
            r == AgentId::at(index as int),
    {
        AgentId { id: index as u32 }
    }

    /// The dense identifier value.
    pub fn get(self) -> (r: u32)
        ensures
            r == self.value(),
    {
        self.id
    }

    /// The slot this identifier names.
    pub fn index(self) -> (r: usize)
        ensures
            r == self.value(),
    {
        self.id as usize
    }

    /// The dense identifier value, in specifications.
    pub closed spec fn value(self) -> u32 {
        self.id
    }
}

/// Dense identifier of a compiled guide path.
#[derive(Debug, Clone, Copy, PartialEq, Eq, Hash, Structural)]
pub struct PathId {
    id: u32,
}

impl PathId {
    /// The identifier of the object at dense position `index`.
    pub fn from_index(index: usize) -> (r: PathId)
        requires
            index <= u32::MAX,
        ensures
            r.value() == index,
    {
        PathId { id: index as u32 }
    }

    /// The dense identifier value.
    pub fn get(self) -> (r: u32)
        ensures
            r == self.value(),
    {
        self.id
    }

    /// The dense identifier value, in specifications.
    pub closed spec fn value(self) -> u32 {
        self.id
    }
}

/// Dense identifier of a compiled crossing.
#[derive(Debug, Clone, Copy, PartialEq, Eq, Hash, Structural)]
pub struct CrossingId {
    id: u32,
}

impl CrossingId {
    /// An identifier is its dense value.
    pub proof fn lemma_value_identifies(a: CrossingId, b: CrossingId)
        requires
            a.value() == b.value(),
        ensures
            a == b,
    {
    }

    /// The identifier of the object at dense position `index`.
    pub fn from_index(index: usize) -> (r: CrossingId)
        requires
            index <= u32::MAX,
        ensures
            r.value() == index,
    {
        CrossingId { id: index as u32 }
    }

    /// The dense identifier value.
    pub fn get(self) -> (r: u32)
        ensures
            r == self.value(),
    {
        self.id
    }

    /// The dense identifier value, in specifications.
    pub closed spec fn value(self) -> u32 {
        self.id
    }
}

/// Dense identifier of a compiled conflict region.
#[derive(Debug, Clone, Copy, PartialEq, Eq, Hash, Structural)]
pub struct ConflictRegionId {
    id: u32,
}

impl ConflictRegionId {
    /// An identifier is its dense value.
    pub proof fn lemma_value_identifies(a: ConflictRegionId, b: ConflictRegionId)
        requires
            a.value() == b.value(),
        ensures
            a == b,
    {
    }

    /// The identifier of the object at dense position `index`.
    pub fn from_index(index: usize) -> (r: ConflictRegionId)
        requires
            index <= u32::MAX,
        ensures
            r.value() == index,
    {
        ConflictRegionId { id: index as u32 }
    }

    /// The dense identifier value.
    pub fn get(self) -> (r: u32)
        ensures
            r == self.value(),
    {
        self.id
    }

    /// The dense identifier value, in specifications.
    pub closed spec fn value(self) -> u32 {
        self.id
    }
}

/// Dense identifier of a compiled facility.
#[derive(Debug, Clone, Copy, PartialEq, Eq, Hash, Structural)]
pub struct FacilityId {
    id: u32,
}

impl FacilityId {
    /// A dense position of a compiled object stays below `u32::MAX`.
    #[verifier::type_invariant]
    closed spec fn below_max(self) -> bool {
        self.id < u32::MAX
    }

    /// The identifier of the object at dense position `index`.
    pub fn from_index(index: usize) -> (r: FacilityId)
        requires
            index < u32::MAX,
        ensures
            r.value() == index,
    {
        FacilityId { id: index as u32 }
    }

    /// The dense identifier value.
    pub fn get(self) -> (r: u32)
        ensures
            r == self.value(),
            r < u32::MAX,
    {
        proof {
            use_type_invariant(&self);
        }
        self.id
    }

    /// The dense identifier value, in specifications.
    pub closed spec fn value(self) -> u32 {
        self.id
    }
}

/// Dense identifier of a compiled movement connector.
#[derive(Debug, Clone, Copy, PartialEq, Eq, Hash, Structural)]
pub struct MovementId {
    id: u32,
}

impl MovementId {
    /// A dense position of a compiled object stays below `u32::MAX`.
    #[verifier::type_invariant]
    closed spec fn below_max(self) -> bool {
        self.id < u32::MAX
    }

    /// The identifier of the object at dense position `index`.
    pub fn from_index(index: usize) -> (r: MovementId)
        requires
            index < u32::MAX,
        ensures
            r.value() == index,
    {
        MovementId { id: index as u32 }
    }

    /// The dense identifier value.
    pub fn get(self) -> (r: u32)
        ensures
            r == self.value(),
            r < u32::MAX,
    {
        proof {
            use_type_invariant(&self);
        }
        self.id
    }

    /// The dense identifier value, in specifications.
    pub closed spec fn value(self) -> u32 {
        self.id
    }
}

/// Dense identifier of a compiled clearance band.
#[derive(Debug, Clone, Copy, PartialEq, Eq, Hash, Structural)]
pub struct ClearanceBandId {
    id: u32,
}

impl ClearanceBandId {
    /// The identifier of the object at dense position `index`.
    pub fn from_index(index: usize) -> (r: ClearanceBandId)
        requires
            index <= u32::MAX,
        ensures
            r.value() == index,
    {
        ClearanceBandId { id: index as u32 }
    }

    /// The dense identifier value.
    pub fn get(self) -> (r: u32)
        ensures
            r == self.value(),
    {
        self.id
    }

    /// The dense identifier value, in specifications.
    pub closed spec fn value(self) -> u32 {
        self.id
    }
}

/// Dense identifier of a compiled mode template.
#[derive(Debug, Clone, Copy, PartialEq, Eq, Hash, Structural)]
pub struct ModeTemplateId {
    id: u32,
}

impl ModeTemplateId {
    /// The identifier of the object at dense position `index`.
    pub fn from_index(index: usize) -> (r: ModeTemplateId)
        requires
            index <= u32::MAX,
        ensures
            r.value() == index,
    {
        ModeTemplateId { id: index as u32 }
    }

    /// The dense identifier value.
    pub fn get(self) -> (r: u32)
        ensures
            r == self.value(),
    {
        self.id
    }

    /// The dense identifier value, in specifications.
    pub closed spec fn value(self) -> u32 {
        self.id
    }
}

/// Which mode an agent belongs to.
#[derive(Debug, Clone, Copy, PartialEq, Eq, Hash, Structural)]
pub enum AgentMode {
    /// A wheeled road user.
    Vehicle,
    /// A walking body.
    Pedestrian,
}

/// The traversal direction an agent travels a compiled path or facility.
#[derive(Debug, Clone, Copy, PartialEq, Eq, Hash, Structural)]
pub enum MovementDirection {
    /// Toward the path end.
    Forward,
    /// Toward the path start.
    Reverse,
}

impl MovementDirection {
    /// The traversal direction opposite this one, in specifications.
    pub open spec fn opposite_of(self) -> MovementDirection {
        match self {
            MovementDirection::Forward => MovementDirection::Reverse,
            MovementDirection::Reverse => MovementDirection::Forward,
        }
    }

    /// The traversal direction opposite this one: the opposing traversal of
    /// the same facility traversal.
    pub fn opposite(self) -> (r: MovementDirection)
        ensures
            r != self,
            r == self.opposite_of(),
    {
        match self {
            MovementDirection::Forward => MovementDirection::Reverse,
            MovementDirection::Reverse => MovementDirection::Forward,
        }
    }
}

/// A facility's authored nominal direction.
#[derive(Debug, Clone, Copy, PartialEq, Eq, Hash, Structural)]
pub enum NominalDirection {
    /// Nominal travel is toward the reference end.
    Forward,
    /// Nominal travel is toward the reference start.
    Reverse,
    /// The facility has no rule direction.
    Either,
}

/// The effect of an authored permission statement.
#[derive(Debug, Clone, Copy, PartialEq, Eq, Hash, Structural)]
pub enum PermissionEffect {
    /// The statement permits the traversal.
    Permit,
    /// The statement prohibits the traversal.
    Prohibit,
    /// The statement obliges the traversal.
    Oblige,
}

/// The side of a compiled adjacency between two bands.
#[derive(Debug, Clone, Copy, PartialEq, Eq, Hash, Structural)]
pub enum AdjacencySide {
    /// The adjacent band lies to the left.
    Left,
    /// The adjacent band lies to the right.
    Right,
}

/// The lateral tactic a maneuver record belongs to.
#[derive(Debug, Clone, Copy, PartialEq, Eq, Hash, Structural)]
pub enum TacticKind {
    /// A within-facility pass of a slower body.
    Pass,
    /// A within-facility overtake of a slower body.
    Overtake,
    /// A cross-facility change of lane.
    ChangeLane,
}

/// The tactic kinds in declaration order.
pub open spec fn tactic_kinds() -> Seq<TacticKind> {
    seq![TacticKind::Pass, TacticKind::Overtake, TacticKind::ChangeLane]
}

impl TacticKind {
    /// Position of this value in declaration order, in specifications.
    pub open spec fn rank(self) -> u32 {
        match self {
            TacticKind::Pass => 0,
            TacticKind::Overtake => 1,
            TacticKind::ChangeLane => 2,
        }
    }

    /// Position of this kind in declaration order.
    pub fn order(self) -> (r: u32)
        ensures
            r == self.rank(),
            r < tactic_kinds().len(),
            tactic_kinds()[r as int] == self,
    {
        match self {
            TacticKind::Pass => 0,
            TacticKind::Overtake => 1,
            TacticKind::ChangeLane => 2,
        }
    }
}

/// A tactical capability a compiled mode template may carry.
#[derive(Debug, Clone, Copy, PartialEq, Eq, Hash, Structural)]
pub enum TacticalCapability {
    /// Follow the leader ahead.
    Follow,
    /// Stop at a stop line.
    Stop,
    /// Yield at a crossing.
    Yield,
    /// Pass a slower user within a facility.
    Pass,
    /// Overtake a slower user.
    Overtake,
    /// Travel against a facility's nominal direction.
    ReverseNominalDirection,
}

} // verus!
