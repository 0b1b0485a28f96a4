//! Facility handoffs: which traversal a lateral handoff reaches, the route
//! state it leaves, and the record it produces.
//!
//! A committed change of lane crosses out to the destination facility it was
//! attempted for; a returning or aborted one crosses back to the facility it
//! was attempted from. The outbound crossing keeps the source facility as the
//! return facility, so the return leg crosses back over the same adjacency;
//! the return crossing clears it. Either way the body is still on the shared
//! boundary, so the entry transient holds until the body is inside the
//! destination band. Every handoff is recorded once, and exactly one
//! [`Event::FacilityTransition`] carries every field of its record.

use vstd::prelude::*;

use crate::event::Event;
use crate::ids::{AgentId, FacilityId, MovementDirection};
use crate::lifecycle::ManeuverStatus;
use crate::measure::Measure;
use crate::stage::{ManeuverState, PassSide, TransitionKind};

verus! {

/// One facility handoff.
#[derive(Debug, Clone, Copy, PartialEq, Eq, Hash, Structural)]
pub struct FacilityTransitionRecord {
    /// The agent handed off.
    pub agent: AgentId,
    /// The facility it left.
    pub from_facility: FacilityId,
    /// The facility it entered.
    pub to_facility: FacilityId,
    /// The traversal direction it left.
    pub from_direction: MovementDirection,
    /// The traversal direction it entered.
    pub to_direction: MovementDirection,
    /// How it crossed.
    pub via: TransitionKind,
    /// The side it crossed toward, in its own travel frame.
    pub side: PassSide,
    /// Its reference coordinate on the left facility at the handoff.
    pub s_m: Measure,
    /// Its signed lateral offset on the left facility at the handoff.
    pub d_m: Measure,
    /// Whether the entered traversal permits the agent's mode.
    pub permitted: bool,
}

/// The record a handoff's event carries.
pub open spec fn transition_event(record: FacilityTransitionRecord) -> Event {
    Event::FacilityTransition {
        agent: record.agent,
        from_facility: record.from_facility,
        to_facility: record.to_facility,
        from_direction: record.from_direction,
        to_direction: record.to_direction,
        via: record.via,
        side: record.side,
        s_m: record.s_m,
        d_m: record.d_m,
        permitted: record.permitted,
    }
}

/// Record one handoff: the record joins the step's handoffs and exactly one
/// event, mapped from every field of the record, joins its events.
pub fn record_facility_transition(
    record: FacilityTransitionRecord,
    records: &mut Vec<FacilityTransitionRecord>,
    events: &mut Vec<Event>,
)
    ensures
        final(records)@ == old(records)@.push(record),
        final(events)@ == old(events)@.push(transition_event(record)),
{
    let event = Event::FacilityTransition {
        agent: record.agent,
        from_facility: record.from_facility,
        to_facility: record.to_facility,
        from_direction: record.from_direction,
        to_direction: record.to_direction,
        via: record.via,
        side: record.side,
        s_m: record.s_m,
        d_m: record.d_m,
        permitted: record.permitted,
    };
    records.push(record);
    events.push(event);
}

/// The facility a lateral handoff reaches and whether it is the return
/// crossing.
pub open spec fn handoff_target_of(status: ManeuverStatus) -> Option<(FacilityId, bool)> {
    if status.maneuver == ManeuverState::Committed {
        match status.target_facility {
            Some(f) => Some((f, false)),
            None => None,
        }
    } else if status.maneuver == ManeuverState::Returning || status.maneuver == ManeuverState::Aborted {
        match status.return_facility {
            Some(f) => Some((f, true)),
            None => None,
        }
    } else {
        None
    }
}

/// The facility an agent's lateral handoff would reach, and whether it is the
/// return crossing: a committed maneuver with a destination crosses out to
/// it, a returning or aborted one with a return facility crosses back to it,
/// and every other state hands off nowhere.
pub fn lateral_handoff_target(status: ManeuverStatus) -> (r: Option<(FacilityId, bool)>)
    ensures
        r == handoff_target_of(status),
{
    match status.maneuver {
        ManeuverState::Committed => match status.target_facility {
            Some(f) => Some((f, false)),
            None => None,
        },
        ManeuverState::Returning | ManeuverState::Aborted => match status.return_facility {
            Some(f) => Some((f, true)),
            None => None,
        },
        _ => None,
    }
}

/// The maneuver status a lateral handoff leaves: the agent rides the
/// destination at its new offset, the outbound crossing keeps the source as
/// the return facility and clears the destination, the return crossing
/// clears the return facility, and the entry transient begins.
pub open spec fn handed_off_of(status: ManeuverStatus, destination: FacilityId, returning: bool, d_m: Measure) -> ManeuverStatus {
    if returning {
        ManeuverStatus { facility: destination, d_m, return_facility: None, entering_facility: true, ..status }
    } else {
        ManeuverStatus {
            facility: destination,
            d_m,
            target_facility: None,
            return_facility: Some(status.facility),
            entering_facility: true,
            ..status
        }
    }
}

/// The maneuver status after a lateral handoff to `destination`, with the
/// agent's offset `d_m` projected onto the destination's reference.
pub fn handed_off(status: ManeuverStatus, destination: FacilityId, returning: bool, d_m: Measure) -> (r: ManeuverStatus)
    ensures
        r == handed_off_of(status, destination, returning, d_m),
{
    if returning {
        ManeuverStatus { facility: destination, d_m, return_facility: None, entering_facility: true, ..status }
    } else {
        ManeuverStatus {
            facility: destination,
            d_m,
            target_facility: None,
            return_facility: Some(status.facility),
            entering_facility: true,
            ..status
        }
    }
}

/// An outbound change of lane and its return cross the same adjacency: after
/// the outbound handoff, the return leg targets the facility the maneuver
/// was attempted from, and after the return handoff no further crossing is
/// owed.
pub proof fn law_return_crosses_back_to_the_source(status: ManeuverStatus, d_out: Measure, d_back: Measure)
    requires
        status.maneuver == ManeuverState::Committed,
        status.target_facility is Some,
    ensures
        ({
            let out = handed_off_of(status, status.target_facility->0, false, d_out);
            let back_status = ManeuverStatus { maneuver: ManeuverState::Returning, ..out };
            &&& out.facility == status.target_facility->0
            &&& handoff_target_of(back_status) == Some((status.facility, true))
            &&& handoff_target_of(
                ManeuverStatus { maneuver: ManeuverState::Returning, ..handed_off_of(back_status, status.facility, true, d_back) },
            ) is None
        }),
{
}

/// The band on the far side of the cross-facility crossing an agent's
/// maneuver is engaged in: the target of a preparing or committed maneuver,
/// the band a returning or aborted one crosses back to, and none for a
/// following agent or a maneuver that stays on its own band.
pub open spec fn far_facility_of(status: ManeuverStatus) -> Option<FacilityId> {
    let far = match status.maneuver {
        ManeuverState::Following => None,
        ManeuverState::Preparing | ManeuverState::Committed => status.target_facility,
        ManeuverState::Returning | ManeuverState::Aborted => status.return_facility,
    };
    match far {
        Some(f) => if f == status.facility {
            None
        } else {
            Some(f)
        },
        None => None,
    }
}

/// The band on the far side of an agent's cross-facility crossing, from the
/// first state that knows it: a preparing maneuver already knows its target,
/// and a returning or aborted one knows the band it crosses back to. The far
/// side is never the band the agent rides.
pub fn crossing_far_facility(status: ManeuverStatus) -> (r: Option<FacilityId>)
    ensures
        r == far_facility_of(status),
        r != Some(status.facility),
{
    let far = match status.maneuver {
        ManeuverState::Following => None,
        ManeuverState::Preparing | ManeuverState::Committed => status.target_facility,
        ManeuverState::Returning | ManeuverState::Aborted => status.return_facility,
    };
    match far {
        Some(f) => if f == status.facility {
            None
        } else {
            Some(f)
        },
        None => None,
    }
}

/// A committed change of lane crosses out to its target band; a returning
/// or an aborted one crosses back to the band it was attempted from; a
/// following or preparing agent hands off nowhere. An outbound crossing is
/// never the return crossing, and a return crossing always is.
pub proof fn law_handoff_follows_the_leg(status: ManeuverStatus)
    ensures
        status.maneuver == ManeuverState::Committed ==> handoff_target_of(status) == match status.target_facility {
            Some(f) => Some((f, false)),
            None => None::<(FacilityId, bool)>,
        },
        (status.maneuver == ManeuverState::Returning || status.maneuver == ManeuverState::Aborted)
            ==> handoff_target_of(status) == match status.return_facility {
            Some(f) => Some((f, true)),
            None => None::<(FacilityId, bool)>,
        },
        (status.maneuver == ManeuverState::Following || status.maneuver == ManeuverState::Preparing)
            ==> handoff_target_of(status) is None,
        handoff_target_of(status) matches Some((_, returning)) ==> (returning <==> status.maneuver
            != ManeuverState::Committed),
{
}

} // verus!
