//! Traversal directions, handoff sides, and the opposing-traversal record.
//!
//! A body's longitudinal travel sign names the compiled traversal direction it
//! follows: a negative sign is the reverse traversal, anything else the
//! forward one. A lateral handoff crosses toward a compiled adjacency side,
//! which is already the side in the agent's own travel frame. An opposing
//! traversal interval carries one record at each boundary, the open boundary
//! marked `entering` and the close boundary not.

use vstd::prelude::*;

use crate::event::Event;
use crate::ids::{
    AdjacencySide, AgentId, FacilityId, MovementDirection, MovementId, NominalDirection,
    PermissionEffect,
};
use crate::measure::{bits_lt_zero, Measure};
use crate::stage::{PassSide, WrongWayReason};

verus! {

/// The bit pattern of `1.0`.
pub const ONE_BITS: u64 = 0x3ff0_0000_0000_0000u64;

/// The bit pattern of `-1.0`.
pub const MINUS_ONE_BITS: u64 = 0xbff0_0000_0000_0000u64;

/// The compiled traversal direction a travel sign names.
pub open spec fn direction_of(sign: Measure) -> MovementDirection {
    if bits_lt_zero(sign.bits) {
        MovementDirection::Reverse
    } else {
        MovementDirection::Forward
    }
}

/// The compiled traversal direction an agent's travel sign names: a sign that
/// compares below zero is the reverse traversal, every other sign (a NaN
/// included) the forward one.
pub fn movement_direction(sign: Measure) -> (r: MovementDirection)
    ensures
        r == direction_of(sign),
{
    if sign.is_negative() {
        MovementDirection::Reverse
    } else {
        MovementDirection::Forward
    }
}

/// The traversal direction opposite `direction`: the opposing traversal of the
/// same facility traversal.
pub fn opposite_movement_direction(direction: MovementDirection) -> (r: MovementDirection)
    ensures
        r != direction,
        r == direction.opposite_of(),
{
    direction.opposite()
}

/// The longitudinal travel sign a compiled traversal direction names: `-1.0`
/// for the reverse traversal and `1.0` for the forward one.
pub fn travel_sign(direction: MovementDirection) -> (r: Measure)
    ensures
        r.bits == (if direction == MovementDirection::Reverse { MINUS_ONE_BITS } else { ONE_BITS }),
        direction_of(r) == direction,
{
    assert(bits_lt_zero(MINUS_ONE_BITS) && !bits_lt_zero(ONE_BITS)) by (bit_vector);
    match direction {
        MovementDirection::Reverse => Measure::from_bits(MINUS_ONE_BITS),
        MovementDirection::Forward => Measure::from_bits(ONE_BITS),
    }
}

/// The travel-frame pass side of a compiled adjacency side.
pub open spec fn pass_side_of(side: AdjacencySide) -> PassSide {
    match side {
        AdjacencySide::Left => PassSide::Left,
        AdjacencySide::Right => PassSide::Right,
    }
}

/// The resolved travel-frame side of a compiled adjacency side.
pub fn travel_pass_side(side: AdjacencySide) -> (r: PassSide)
    ensures
        r == pass_side_of(side),
{
    match side {
        AdjacencySide::Left => PassSide::Left,
        AdjacencySide::Right => PassSide::Right,
    }
}

/// One compiled lateral transition of a traversal: the facility it reaches
/// and the adjacency side it crosses toward.
#[derive(Debug, Clone, Copy, PartialEq, Eq, Hash, Structural)]
pub struct LateralTransition {
    /// The facility the transition reaches.
    pub target_facility: FacilityId,
    /// The adjacency side, in the traversal's travel frame.
    pub side: AdjacencySide,
}

/// The first of a traversal's compiled lateral transitions that reaches a
/// facility.
pub open spec fn first_reaching(transitions: Seq<LateralTransition>, target: FacilityId, n: int) -> Option<
    LateralTransition,
>
    decreases n,
{
    if n <= 0 {
        None
    } else {
        match first_reaching(transitions, target, n - 1) {
            Some(t) => Some(t),
            None => if transitions[n - 1].target_facility == target {
                Some(transitions[n - 1])
            } else {
                None
            },
        }
    }
}

/// Once some transition reaches the facility, later transitions do not
/// change the first one.
proof fn lemma_first_reaching_stable(transitions: Seq<LateralTransition>, target: FacilityId, i: int, n: int)
    requires
        0 <= i <= n,
        first_reaching(transitions, target, i) is Some,
    ensures
        first_reaching(transitions, target, n) == first_reaching(transitions, target, i),
    decreases n - i,
{
    if n > i {
        lemma_first_reaching_stable(transitions, target, i, n - 1);
    }
}

/// The compiled lateral transition of a traversal that reaches
/// `target_facility`, or `None` when the traversal has no transitions or no
/// adjacency joins the two bands.
pub fn lateral_transition(transitions: Option<&Vec<LateralTransition>>, target_facility: FacilityId) -> (r:
    Option<LateralTransition>)
    ensures
        r == match transitions {
            Some(ts) => first_reaching(ts@, target_facility, ts@.len() as int),
            None => None,
        },
{
    match transitions {
        None => None,
        Some(ts) => {
            let mut i: usize = 0;
            while i < ts.len()
                invariant
                    transitions == Some(ts),
                    i <= ts@.len(),
                    first_reaching(ts@, target_facility, i as int) == None::<LateralTransition>,
                decreases ts.len() - i,
            {
                if ts[i].target_facility == target_facility {
                    proof {
                        assert(ts@[i as int].target_facility == target_facility);
                        assert(first_reaching(ts@, target_facility, i + 1) == Some(ts@[i as int]));
                        lemma_first_reaching_stable(ts@, target_facility, i + 1, ts@.len() as int);
                    }
                    return Some(ts[i]);
                }
                i = i + 1;
            }
            None
        },
    }
}

/// One opposing-traversal interval's latched facts.
#[derive(Debug, Clone, Copy, PartialEq, Eq, Hash, Structural)]
pub struct OpposingTraversalInterval {
    /// The traversing agent.
    pub agent: AgentId,
    /// The facility traversed against its rule direction.
    pub facility: FacilityId,
    /// The movement connector the agent follows, if any.
    pub movement: Option<MovementId>,
    /// The direction the agent travels.
    pub direction: MovementDirection,
    /// The facility's authored nominal direction.
    pub nominal_direction: NominalDirection,
    /// The rule the agent perceived, if any.
    pub perceived_rule: Option<PermissionEffect>,
    /// Why the agent traverses against the rule direction.
    pub reason: WrongWayReason,
    /// Whether the traversal violates the rule.
    pub violating: bool,
}

/// The record of one interval boundary: `entering` at the open boundary and
/// not at the close boundary, with every other field the interval latched.
pub open spec fn opposing_record(interval: OpposingTraversalInterval, entering: bool) -> Event {
    Event::OpposingTraversal {
        agent: interval.agent,
        facility: interval.facility,
        movement: interval.movement,
        direction: interval.direction,
        nominal_direction: interval.nominal_direction,
        perceived_rule: interval.perceived_rule,
        reason: interval.reason,
        violating: interval.violating,
        entering,
    }
}

/// The opposing-traversal record of one interval boundary.
pub fn opposing_traversal_event(interval: &OpposingTraversalInterval, entering: bool) -> (r: Event)
    ensures
        r == opposing_record(*interval, entering),
{
    Event::OpposingTraversal {
        agent: interval.agent,
        facility: interval.facility,
        movement: interval.movement,
        direction: interval.direction,
        nominal_direction: interval.nominal_direction,
        perceived_rule: interval.perceived_rule,
        reason: interval.reason,
        violating: interval.violating,
        entering,
    }
}

/// A traversal's direction and its opposite are the facility's two
/// traversals: opposing twice returns the traversal, and a travel sign names
/// the direction it was made from.
pub proof fn law_directions_round_trip(direction: MovementDirection)
    ensures
        direction.opposite_of().opposite_of() == direction,
        direction_of(
            Measure {
                bits: if direction == MovementDirection::Reverse { MINUS_ONE_BITS } else { ONE_BITS },
            },
        ) == direction,
{
    assert(bits_lt_zero(MINUS_ONE_BITS) && !bits_lt_zero(ONE_BITS)) by (bit_vector);
}

} // verus!
