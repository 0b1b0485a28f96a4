use hekate_sim::ids::{AdjacencySide, AgentId, FacilityId, MovementDirection, MovementId, NominalDirection, PermissionEffect, TacticalCapability};
use hekate_sim::lifecycle::{
    abort_plan, attempt_plan, claim_plan, committed_plan, maneuver_candidate, maneuver_in_flight,
    preparing_decision, request_lateral_maneuver, request_wrong_way_entry, settle_plan, Attempt,
    CommittedFacts, LateralManeuverRequest, LegPrediction, ManeuverStatus, PreparingDecision,
    PreparingFacts, SteeringFacts,
};
use hekate_sim::event::Event;
use hekate_sim::measure::Measure;
use hekate_sim::stage::{ManeuverAbortReason, ManeuverEdge, ManeuverReason, ManeuverState, PassSide, WrongWayReason};
use hekate_sim::traversal::{
    lateral_transition, movement_direction, opposing_traversal_event, opposite_movement_direction,
    travel_pass_side, travel_sign, LateralTransition, OpposingTraversalInterval,
};

fn m(value: f64) -> Measure {
    Measure::from_bits(value.to_bits())
}

fn following() -> ManeuverStatus {
    ManeuverStatus {
        maneuver: ManeuverState::Following,
        facility: FacilityId::from_index(0),
        return_facility: None,
        intent: None,
        target_offset_m: None,
        target_facility: None,
        passed_body: None,
        corridor_fixed: false,
        predicted_min_clearance_m: None,
        pre_maneuver_offset_m: m(0.0),
        d_m: m(0.0),
        state_since: None,
        hold_since: None,
        settled_since: None,
        braking: false,
        return_blocked: false,
        entering_facility: false,
        maneuver_reason: None,
    }
}

fn toolset() -> SteeringFacts {
    SteeringFacts { bounded_steering: true, target_clearance: true, horizon: true }
}

fn request() -> LateralManeuverRequest {
    LateralManeuverRequest { target_offset_m: m(1.5), target_facility: None, passed_body: AgentId::from_index(1) }
}

#[test]
fn a_maneuver_walks_the_legal_edges_back_to_following() {
    let agent = AgentId::from_index(0);
    let with_intent = ManeuverStatus { intent: Some(request()), ..following() };
    let attempted = attempt_plan(with_intent, agent, Attempt::Admissible { predicted_clearance_m: m(0.8) }, 10)
        .expect("an admissible attempt prepares");
    let preparing = attempted.status;
    assert_eq!(preparing.maneuver, ManeuverState::Preparing);
    assert_eq!(preparing.intent, None);
    assert_eq!(preparing.passed_body, Some(AgentId::from_index(1)));
    assert_eq!(attempted.transition.map(|t| t.edge), Some(ManeuverEdge::Attempted));

    let facts = PreparingFacts { passed_alive: true, hold_elapsed: false, prediction_feasible: true };
    assert_eq!(preparing_decision(preparing, agent, facts, 10), PreparingDecision::Wait);
    assert_eq!(preparing_decision(preparing, agent, facts, 11), PreparingDecision::Claim);

    let claimed = claim_plan(preparing, agent, true, 11);
    assert_eq!(claimed.status.maneuver, ManeuverState::Committed);
    assert_eq!(claimed.transition.map(|t| t.edge), Some(ManeuverEdge::Committed));

    let prediction = LegPrediction {
        swept_clearance_m: m(0.9),
        feasible: true,
        below_policy_minimum: false,
        within_target_clearance: false,
    };
    let cleared = CommittedFacts {
        passed_alive: true,
        prediction: Some(prediction),
        passed_cleared: true,
        hold_elapsed: false,
    };
    let returned = committed_plan(claimed.status, agent, cleared, 20);
    assert_eq!(returned.status.maneuver, ManeuverState::Returning);
    assert_eq!(returned.transition.map(|t| t.edge), Some(ManeuverEdge::Completed));

    let arriving = settle_plan(returned.status, agent, true, false, 30);
    assert_eq!(arriving.transition, None);
    let settled = settle_plan(arriving.status, agent, true, false, 31);
    assert_eq!(settled.status.maneuver, ManeuverState::Following);
    assert_eq!(settled.transition.map(|t| (t.from, t.to, t.edge)), Some((ManeuverState::Returning, ManeuverState::Following, ManeuverEdge::Completed)));
    assert_eq!(settled.status.passed_body, None);
}

#[test]
fn a_losing_claimant_aborts_with_the_rejected_reason() {
    let agent = AgentId::from_index(3);
    let preparing = ManeuverStatus { maneuver: ManeuverState::Preparing, state_since: Some(4), corridor_fixed: true, ..following() };
    let plan = claim_plan(preparing, agent, false, 5);
    assert_eq!(plan.status.maneuver, ManeuverState::Aborted);
    let transition = plan.transition.expect("an abort records its edge");
    assert_eq!(transition.reason, Some(ManeuverAbortReason::ClaimRejected));
    assert_eq!((transition.from, transition.to), (ManeuverState::Preparing, ManeuverState::Aborted));
    assert_eq!(abort_plan(preparing, agent, ManeuverAbortReason::ClaimRejected, 5), plan);
}

#[test]
fn an_infeasible_attempt_keeps_the_intent_and_a_forbidden_boundary_records_its_reason() {
    let agent = AgentId::from_index(0);
    let with_intent = ManeuverStatus { intent: Some(request()), ..following() };
    assert_eq!(attempt_plan(with_intent, agent, Attempt::Infeasible, 3), None);
    let forbidden = attempt_plan(with_intent, agent, Attempt::BoundaryForbidden, 3).expect("decided");
    assert_eq!(forbidden.status.intent, None);
    assert_eq!(forbidden.status.maneuver_reason, Some(ManeuverReason::BoundaryForbidden));
    assert_eq!(forbidden.transition, None);
}

#[test]
fn the_request_seam_refuses_an_agent_that_cannot_maneuver() {
    let agent = AgentId::from_index(0);
    let alive = vec![true, true, false];
    let route = Some((following(), toolset()));
    let recorded = request_lateral_maneuver(true, agent, request(), &alive, route).expect("recorded");
    assert_eq!(recorded.intent, Some(request()));
    assert_eq!(request_lateral_maneuver(false, agent, request(), &alive, route), None);
    let itself = LateralManeuverRequest { passed_body: agent, ..request() };
    assert_eq!(request_lateral_maneuver(true, agent, itself, &alive, route), None, "an agent cannot pass itself");
    let despawned = LateralManeuverRequest { passed_body: AgentId::from_index(2), ..request() };
    assert_eq!(request_lateral_maneuver(true, agent, despawned, &alive, route), None, "a despawned target is not a body to displace around");
    let unbounded = LateralManeuverRequest { target_offset_m: m(f64::INFINITY), ..request() };
    assert_eq!(request_lateral_maneuver(true, agent, unbounded, &alive, route), None);
    let no_horizon = Some((following(), SteeringFacts { horizon: false, ..toolset() }));
    assert_eq!(request_lateral_maneuver(true, agent, request(), &alive, no_horizon), None);
    assert_eq!(request_lateral_maneuver(true, agent, request(), &alive, None), None);
}

#[test]
fn a_wrong_way_request_needs_the_policy_the_capability_and_an_opposing_traversal() {
    let agent = AgentId::from_index(1);
    let alive = vec![false, true];
    let reversing = vec![TacticalCapability::Follow, TacticalCapability::ReverseNominalDirection];
    let plain = vec![TacticalCapability::Follow];
    assert!(request_wrong_way_entry(true, agent, &alive, Some(&reversing), true));
    assert!(!request_wrong_way_entry(false, agent, &alive, Some(&reversing), true));
    assert!(!request_wrong_way_entry(true, AgentId::from_index(0), &alive, Some(&reversing), true));
    assert!(!request_wrong_way_entry(true, agent, &alive, Some(&plain), true));
    assert!(!request_wrong_way_entry(true, agent, &alive, None, true));
    assert!(!request_wrong_way_entry(true, agent, &alive, Some(&reversing), false));
}

#[test]
fn candidates_and_maneuvers_in_flight_read_the_route_state() {
    assert!(maneuver_candidate(true, Some((following(), toolset()))));
    assert!(!maneuver_candidate(false, Some((following(), toolset()))));
    let busy = ManeuverStatus { intent: Some(request()), ..following() };
    assert!(!maneuver_candidate(true, Some((busy, toolset()))));
    assert!(!maneuver_candidate(true, None));
    assert!(!maneuver_in_flight(&vec![true, true], &vec![Some(following()), None]));
    assert!(maneuver_in_flight(&vec![true, true], &vec![Some(following()), Some(busy)]));
    assert!(!maneuver_in_flight(&vec![true, false], &vec![Some(following()), Some(busy)]));
}

#[test]
fn handoff_helpers_name_directions_and_sides_deterministically() {
    assert_eq!(movement_direction(m(1.0)), MovementDirection::Forward);
    assert_eq!(movement_direction(m(-1.0)), MovementDirection::Reverse);
    assert_eq!(movement_direction(m(0.0)), MovementDirection::Forward);
    assert_eq!(opposite_movement_direction(MovementDirection::Forward), MovementDirection::Reverse);
    assert_eq!(opposite_movement_direction(MovementDirection::Reverse), MovementDirection::Forward);
    assert_eq!(f64::from_bits(travel_sign(MovementDirection::Reverse).to_bits()), -1.0);
    assert_eq!(f64::from_bits(travel_sign(MovementDirection::Forward).to_bits()), 1.0);
    assert_eq!(travel_pass_side(AdjacencySide::Left), PassSide::Left);
    assert_eq!(travel_pass_side(AdjacencySide::Right), PassSide::Right);
}

#[test]
fn a_lateral_transition_is_found_by_its_target_facility() {
    let transitions = vec![
        LateralTransition { target_facility: FacilityId::from_index(2), side: AdjacencySide::Left },
        LateralTransition { target_facility: FacilityId::from_index(5), side: AdjacencySide::Right },
    ];
    assert_eq!(lateral_transition(Some(&transitions), FacilityId::from_index(5)), Some(transitions[1]));
    assert_eq!(lateral_transition(Some(&transitions), FacilityId::from_index(3)), None);
    assert_eq!(lateral_transition(None, FacilityId::from_index(2)), None);
}

#[test]
fn an_opposing_interval_records_both_boundaries_with_its_latched_facts() {
    let interval = OpposingTraversalInterval {
        agent: AgentId::from_index(2),
        facility: FacilityId::from_index(1),
        movement: Some(MovementId::from_index(0)),
        direction: MovementDirection::Reverse,
        nominal_direction: NominalDirection::Forward,
        perceived_rule: Some(PermissionEffect::Prohibit),
        reason: WrongWayReason::NoncompliantChoice,
        violating: true,
    };
    for entering in [true, false] {
        assert_eq!(
            opposing_traversal_event(&interval, entering),
            Event::OpposingTraversal {
                agent: AgentId::from_index(2),
                facility: FacilityId::from_index(1),
                movement: Some(MovementId::from_index(0)),
                direction: MovementDirection::Reverse,
                nominal_direction: NominalDirection::Forward,
                perceived_rule: Some(PermissionEffect::Prohibit),
                reason: WrongWayReason::NoncompliantChoice,
                violating: true,
                entering,
            }
        );
    }
}
