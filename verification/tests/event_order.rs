use hekate_sim::event::{
    sort_by_order_key, ClosePassBand, ControlTransitionKind, Event, EventKind, ManeuverReasonCode,
    ViolationKind, EVENT_VERSION,
};
use hekate_sim::ids::{
    AgentId, ClearanceBandId, FacilityId, MovementDirection, MovementId, NominalDirection,
    PathId, TacticKind,
};
use hekate_sim::measure::Measure;
use hekate_sim::stage::{ManeuverEdge, ManeuverState, PassSide, TransitionKind, WrongWayReason};

fn m(value: f64) -> Measure {
    Measure::from_bits(value.to_bits())
}

/// The event kinds of version 2, in their documented order.
const VERSION_2_KINDS: [EventKind; 10] = [
    EventKind::Spawned,
    EventKind::Despawned,
    EventKind::Yielded,
    EventKind::Collision,
    EventKind::NearMiss,
    EventKind::Violation,
    EventKind::Entry,
    EventKind::Exit,
    EventKind::Queue,
    EventKind::ControlTransition,
];

fn agent() -> AgentId {
    AgentId::from_index(2)
}

fn maneuver(target_facility: Option<FacilityId>, reason: ManeuverReasonCode) -> Event {
    Event::Maneuver {
        agent: agent(),
        kind: TacticKind::Overtake,
        from: ManeuverState::Following,
        to: ManeuverState::Preparing,
        edge: ManeuverEdge::Attempted,
        partner: None,
        source_facility: FacilityId::from_index(0),
        target_facility,
        target_offset_m: m(2.5),
        side: PassSide::Left,
        reason,
    }
}

fn opposing(movement: Option<MovementId>, entering: bool) -> Event {
    Event::OpposingTraversal {
        agent: agent(),
        facility: FacilityId::from_index(1),
        movement,
        direction: MovementDirection::Reverse,
        nominal_direction: NominalDirection::Forward,
        perceived_rule: None,
        reason: WrongWayReason::NoncompliantChoice,
        violating: true,
        entering,
    }
}

fn hitch_limit(hitch_index: u32, exceeding: bool) -> Event {
    Event::ArticulationLimitExceeded {
        agent: agent(),
        hitch_index,
        angle_rad: m(1.0),
        limit_rad: m(0.9),
        exceeding,
    }
}

fn close_pass(partner: usize, facility: usize) -> Event {
    Event::ClosePass {
        agent: agent(),
        partner: AgentId::from_index(partner),
        facility: FacilityId::from_index(facility),
        side: PassSide::Left,
        min_clearance_m: m(0.3),
        min_clearance_time_s: m(1.5),
        relative_speed_mps: m(1.25),
        bands: vec![ClosePassBand {
            band: ClearanceBandId::from_index(0),
            duration_s: m(0.4),
        }],
        violating_bands: vec![ClearanceBandId::from_index(0)],
        crossed_boundary: false,
        entered_opposing: false,
    }
}

#[test]
fn the_additive_kinds_are_appended_after_control_transition() {
    for (position, kind) in VERSION_2_KINDS.iter().enumerate() {
        assert_eq!(
            kind.order() as usize,
            position,
            "{kind:?} kept its version-2 order"
        );
    }
    assert_eq!(EventKind::Maneuver.order() as usize, VERSION_2_KINDS.len());
    assert_eq!(
        EventKind::FacilityTransition.order() as usize,
        VERSION_2_KINDS.len() + 1
    );
    assert_eq!(
        EventKind::OpposingTraversal.order() as usize,
        VERSION_2_KINDS.len() + 2
    );
    assert_eq!(
        EventKind::ClosePass.order() as usize,
        VERSION_2_KINDS.len() + 3
    );
    assert_eq!(
        EventKind::ArticulationLimitExceeded.order() as usize,
        VERSION_2_KINDS.len() + 4,
        "the articulated-chain record is appended after close pass, still under version 3"
    );
    assert_eq!(EVENT_VERSION, 3, "the additive union's single bump");
}

#[test]
fn a_new_record_orders_by_its_contract_key() {
    let later_facility = maneuver(Some(FacilityId::from_index(3)), ManeuverReasonCode::Settled);
    let earlier_facility = maneuver(Some(FacilityId::from_index(1)), ManeuverReasonCode::Settled);
    assert!(
        earlier_facility.order_key() < later_facility.order_key(),
        "a maneuver orders by its target facility"
    );
    assert!(
        maneuver(None, ManeuverReasonCode::Settled).order_key() < earlier_facility.order_key(),
        "a maneuver with no target facility orders before every one that has one"
    );
    assert_eq!(later_facility.agent(), agent());
    assert_eq!(later_facility.kind(), EventKind::Maneuver);

    assert!(
        opposing(None, true).order_key()
            < opposing(Some(MovementId::from_index(0)), true).order_key()
    );
    assert!(
        opposing(Some(MovementId::from_index(4)), false).order_key()
            < opposing(Some(MovementId::from_index(4)), true).order_key(),
        "the interval edge orders as every other edge flag does: closed before open"
    );
    assert_eq!(opposing(None, true).kind(), EventKind::OpposingTraversal);

    let transition = |to_facility| Event::FacilityTransition {
        agent: agent(),
        from_facility: FacilityId::from_index(0),
        to_facility: FacilityId::from_index(to_facility),
        from_direction: MovementDirection::Forward,
        to_direction: MovementDirection::Reverse,
        via: TransitionKind::Lateral,
        side: PassSide::Right,
        s_m: m(30.0),
        d_m: m(-1.25),
        permitted: false,
    };
    assert!(
        transition(1).order_key() < transition(2).order_key(),
        "a handoff orders by its destination facility"
    );
    assert_eq!(transition(1).kind(), EventKind::FacilityTransition);

    assert!(
        close_pass(1, 0).order_key() < close_pass(2, 0).order_key(),
        "a close pass orders by its partner"
    );
    assert!(
        close_pass(1, 0).order_key() < close_pass(1, 1).order_key(),
        "a close pass orders by its facility within one partner"
    );
    assert_eq!(close_pass(1, 0).agent(), agent());
    assert_eq!(close_pass(1, 0).kind(), EventKind::ClosePass);

    assert!(
        hitch_limit(1, true).order_key() < hitch_limit(2, true).order_key(),
        "an articulation-limit record orders by its hitch index"
    );
    assert!(
        hitch_limit(1, false).order_key() < hitch_limit(1, true).order_key(),
        "the falling edge orders before the rising edge for the same hitch"
    );
    assert_eq!(hitch_limit(1, true).agent(), agent());
    assert_eq!(
        hitch_limit(1, true).kind(),
        EventKind::ArticulationLimitExceeded
    );

    assert!(
        Event::ControlTransition {
            agent: agent(),
            control: ControlTransitionKind::SignalStop,
            active: true,
        }
        .order_key()
            < earlier_facility.order_key()
    );
}

#[test]
fn the_key_leads_with_the_agent_then_the_kind() {
    let low = Event::ArticulationLimitExceeded {
        agent: AgentId::from_index(1),
        hitch_index: 9,
        angle_rad: m(1.0),
        limit_rad: m(0.5),
        exceeding: true,
    };
    let high = Event::Spawned {
        agent: AgentId::from_index(2),
        mode: hekate_sim::ids::AgentMode::Vehicle,
        path: PathId::from_index(0),
        distance_m: m(0.0),
    };
    assert!(low.order_key() < high.order_key());
    let first_kind = Event::Queue { agent: AgentId::from_index(1), joined: true };
    let later_kind = Event::Violation { agent: AgentId::from_index(1), kind: ViolationKind::RanRedLight };
    assert!(later_kind.order_key() < first_kind.order_key());
    assert_eq!(first_kind.order_key().0, 1);
    assert_eq!(first_kind.order_key().1, EventKind::Queue.order());
}

#[test]
fn sorting_orders_by_key_and_keeps_equal_keys_in_emission_order() {
    let queue = |agent: usize, joined: bool| Event::Queue { agent: AgentId::from_index(agent), joined };
    let mut events = vec![
        queue(3, true),
        queue(1, true),
        queue(3, false),
        queue(1, true),
        queue(0, false),
    ];
    sort_by_order_key(&mut events);
    assert_eq!(
        events,
        vec![
            queue(0, false),
            queue(1, true),
            queue(1, true),
            queue(3, false),
            queue(3, true),
        ]
    );
    for pair in events.windows(2) {
        assert!(pair[0].order_key() <= pair[1].order_key());
    }
}

#[test]
fn labels_and_reason_codes_spell_the_contract_names() {
    assert_eq!(ViolationKind::RanRedLight.label(), "ran_red_light");
    assert_eq!(ControlTransitionKind::SignalStop.label(), "signal_stop");
    assert_eq!(ManeuverReasonCode::Settled.label(), "settled");
}
