use hekate_sim::demand::DemandQueue;
use hekate_sim::handoff::{
    crossing_far_facility, handed_off, lateral_handoff_target, record_facility_transition, FacilityTransitionRecord,
};
use hekate_sim::event::{Event, ViolationKind};
use hekate_sim::following::{maneuver_passed_body, nearest_leader, LeaderCandidate};
use hekate_sim::ids::{AgentId, CrossingId, FacilityId, MovementId, PermissionEffect, TacticalCapability};
use hekate_sim::lifecycle::{
    plan_batch, Attempt, ClaimOutcome, CommittedFacts, LateralManeuverRequest, ManeuverStatus,
    PreparingFacts, StepFacts,
};
use hekate_sim::measure::Measure;
use hekate_sim::safety::SignalAction;
use hekate_sim::signals::{
    movement_yields, next_crossing, red_light_violation, update_yield, CompiledRule, CrossingAhead, RuleKind,
    StopLineDecision,
};
use hekate_sim::ids::MovementDirection;
use hekate_sim::stage::{ManeuverEdge, ManeuverReason, ManeuverState, PassSide, TransitionKind};
use hekate_sim::tactic::{
    maneuver_decision, record_decision, LeaderFacts, ManeuverDecision, PassingSide, PolicyFacts,
    TacticFacts, TargetFacts,
};

fn m(value: f64) -> Measure {
    Measure::from_bits(value.to_bits())
}

#[test]
fn a_yield_rule_names_the_movement_it_obliges() {
    let rules = vec![
        CompiledRule { movement: MovementId::from_index(0), kind: RuleKind::Other },
        CompiledRule { movement: MovementId::from_index(2), kind: RuleKind::Yield },
    ];
    assert!(movement_yields(&rules, MovementId::from_index(2)));
    assert!(!movement_yields(&rules, MovementId::from_index(0)));
    assert!(!movement_yields(&rules, MovementId::from_index(1)));
}

#[test]
fn a_yield_change_ends_the_old_yield_before_beginning_the_new_one() {
    let agent = AgentId::from_index(3);
    let mut recorded = None;
    let mut events = Vec::new();
    update_yield(agent, &mut recorded, Some(CrossingId::from_index(1)), &mut events);
    assert_eq!(events, vec![Event::Yielded { agent, crossing: CrossingId::from_index(1), yielding: true }]);
    update_yield(agent, &mut recorded, Some(CrossingId::from_index(1)), &mut events);
    assert_eq!(events.len(), 1, "an unchanged yield reports nothing");
    update_yield(agent, &mut recorded, Some(CrossingId::from_index(4)), &mut events);
    assert_eq!(
        events[1..],
        [
            Event::Yielded { agent, crossing: CrossingId::from_index(1), yielding: false },
            Event::Yielded { agent, crossing: CrossingId::from_index(4), yielding: true },
        ]
    );
    update_yield(agent, &mut recorded, None, &mut events);
    assert_eq!(events[3], Event::Yielded { agent, crossing: CrossingId::from_index(4), yielding: false });
    assert_eq!(recorded, None);
}

#[test]
fn a_red_light_run_is_reported_on_the_tick_the_front_passes_the_line() {
    let agent = AgentId::from_index(0);
    let upstream = StopLineDecision { action: SignalAction::Proceed, green: false, past_stop_line: false, stop_line_gap_m: m(2.0) };
    let past = StopLineDecision { past_stop_line: true, stop_line_gap_m: m(-0.5), ..upstream };
    assert_eq!(
        red_light_violation(agent, Some(upstream), Some(past)),
        Some(Event::Violation { agent, kind: ViolationKind::RanRedLight })
    );
    assert_eq!(red_light_violation(agent, Some(past), Some(past)), None, "the run is reported once");
    let stopped = StopLineDecision { action: SignalAction::Stop, ..upstream };
    assert_eq!(red_light_violation(agent, Some(stopped), Some(past)), None);
    let green = StopLineDecision { green: true, ..upstream };
    assert_eq!(red_light_violation(agent, Some(green), Some(past)), None);
    let on_line = StopLineDecision { stop_line_gap_m: m(0.0), ..upstream };
    assert_eq!(red_light_violation(agent, Some(on_line), Some(past)), None);
    assert_eq!(red_light_violation(agent, None, Some(past)), None);
}

#[test]
fn a_full_queue_sheds_and_counts_arrivals_and_admits_in_order() {
    let mut queue: DemandQueue<MovementId> = DemandQueue::new(2);
    assert!(queue.arrive(MovementId::from_index(7)));
    assert!(queue.arrive(MovementId::from_index(8)));
    assert!(!queue.arrive(MovementId::from_index(9)));
    assert_eq!(queue.pending_len(), 2);
    assert_eq!(queue.dropped(), 1);
    assert_eq!(queue.front(), Some(MovementId::from_index(7)));
    assert_eq!(queue.admit_front(), MovementId::from_index(7));
    assert!(queue.arrive(MovementId::from_index(10)));
    assert_eq!(queue.admit_front(), MovementId::from_index(8));
    assert_eq!(queue.admit_front(), MovementId::from_index(10));
    assert_eq!(queue.front(), None);
}

#[test]
fn leader_ties_resolve_to_the_lowest_agent_id() {
    let candidate = |agent: usize, gap: f64| LeaderCandidate { agent: AgentId::from_index(agent), gap_m: m(gap) };
    assert_eq!(nearest_leader(&vec![]), None);
    assert_eq!(
        nearest_leader(&vec![candidate(1, 5.0), candidate(2, 3.0), candidate(4, 3.0), candidate(6, 4.0)]),
        Some(candidate(2, 3.0))
    );
    assert_eq!(nearest_leader(&vec![candidate(1, -0.0), candidate(3, 0.0)]), Some(candidate(1, -0.0)));
}

fn status(maneuver: ManeuverState) -> ManeuverStatus {
    ManeuverStatus {
        maneuver,
        facility: FacilityId::from_index(0),
        return_facility: None,
        intent: None,
        target_offset_m: Some(m(1.0)),
        target_facility: None,
        passed_body: Some(AgentId::from_index(5)),
        corridor_fixed: true,
        predicted_min_clearance_m: None,
        pre_maneuver_offset_m: m(0.0),
        d_m: m(0.0),
        state_since: Some(0),
        hold_since: None,
        settled_since: None,
        braking: false,
        return_blocked: false,
        entering_facility: false,
        maneuver_reason: None,
    }
}

#[test]
fn a_passed_body_stops_being_a_leader_once_the_maneuver_commits() {
    assert_eq!(maneuver_passed_body(Some(status(ManeuverState::Preparing))), None);
    assert_eq!(maneuver_passed_body(Some(status(ManeuverState::Committed))), Some(AgentId::from_index(5)));
    assert_eq!(maneuver_passed_body(Some(status(ManeuverState::Aborted))), Some(AgentId::from_index(5)));
    assert_eq!(maneuver_passed_body(None), None);
}

fn eligible() -> TacticFacts {
    TacticFacts {
        lateral_policy: true,
        bounded_steering: true,
        policy: Some(PolicyFacts { overtake: None, passing_side: Some(PassingSide::Left) }),
        desired_speed_mps: Some(m(6.0)),
        leader: Some(LeaderFacts { agent: AgentId::from_index(2), desired_speed_mps: m(4.0), within_reach: true }),
        target: Some(TargetFacts { target_offset_m: m(1.2), sufficient_width: true, feasible: true }),
    }
}

#[test]
fn a_rejected_candidate_reports_the_first_failed_precondition() {
    let pass = vec![TacticalCapability::Follow, TacticalCapability::Pass];
    let follow = vec![TacticalCapability::Follow];
    assert_eq!(
        maneuver_decision(Some(&pass), eligible()),
        ManeuverDecision::Selected { target_offset_m: m(1.2), passed_body: AgentId::from_index(2) }
    );
    assert_eq!(maneuver_decision(Some(&follow), eligible()), ManeuverDecision::Rejected(ManeuverReason::Capability));
    assert_eq!(maneuver_decision(None, eligible()), ManeuverDecision::Rejected(ManeuverReason::Capability));
    let no_lateral = TacticFacts { lateral_policy: false, policy: None, ..eligible() };
    assert_eq!(maneuver_decision(Some(&pass), no_lateral), ManeuverDecision::Rejected(ManeuverReason::NoCorridor));
    let prohibited = TacticFacts {
        policy: Some(PolicyFacts { overtake: Some(PermissionEffect::Prohibit), passing_side: Some(PassingSide::Left) }),
        ..eligible()
    };
    assert_eq!(maneuver_decision(Some(&pass), prohibited), ManeuverDecision::Rejected(ManeuverReason::NoPermission));
    let sideless = TacticFacts { policy: Some(PolicyFacts { overtake: None, passing_side: None }), ..eligible() };
    assert_eq!(maneuver_decision(Some(&pass), sideless), ManeuverDecision::Rejected(ManeuverReason::NoPermission));
    let not_slower = TacticFacts {
        leader: Some(LeaderFacts { agent: AgentId::from_index(2), desired_speed_mps: m(6.0), within_reach: true }),
        ..eligible()
    };
    assert_eq!(maneuver_decision(Some(&pass), not_slower), ManeuverDecision::Rejected(ManeuverReason::NoBenefit));
    let unbounded = TacticFacts { desired_speed_mps: None, ..eligible() };
    assert!(matches!(maneuver_decision(Some(&pass), unbounded), ManeuverDecision::Selected { .. }));
    let narrow = TacticFacts {
        target: Some(TargetFacts { target_offset_m: m(1.2), sufficient_width: false, feasible: true }),
        ..eligible()
    };
    assert_eq!(maneuver_decision(Some(&pass), narrow), ManeuverDecision::Rejected(ManeuverReason::InsufficientWidth));
    let blocked = TacticFacts {
        target: Some(TargetFacts { target_offset_m: m(1.2), sufficient_width: true, feasible: false }),
        ..eligible()
    };
    assert_eq!(maneuver_decision(Some(&pass), blocked), ManeuverDecision::Rejected(ManeuverReason::NoCorridor));
}

#[test]
fn a_selected_decision_records_its_intent_and_reason() {
    let following = ManeuverStatus { maneuver: ManeuverState::Following, target_offset_m: None, passed_body: None, ..status(ManeuverState::Following) };
    let selected = record_decision(
        following,
        ManeuverDecision::Selected { target_offset_m: m(1.2), passed_body: AgentId::from_index(2) },
    );
    assert_eq!(selected.maneuver_reason, Some(ManeuverReason::SlowerLeader));
    assert_eq!(
        selected.intent,
        Some(LateralManeuverRequest { target_offset_m: m(1.2), target_facility: None, passed_body: AgentId::from_index(2) })
    );
    let rejected = record_decision(following, ManeuverDecision::Rejected(ManeuverReason::NoBenefit));
    assert_eq!(rejected.maneuver_reason, Some(ManeuverReason::NoBenefit));
    assert_eq!(rejected.intent, None);
}

fn facts() -> StepFacts {
    StepFacts {
        alive: true,
        attempt: Attempt::Infeasible,
        preparing: PreparingFacts { passed_alive: true, hold_elapsed: false, prediction_feasible: true },
        committed: CommittedFacts { passed_alive: true, prediction: None, passed_cleared: false, hold_elapsed: false },
        at_target: false,
        return_obstructed: false,
    }
}

#[test]
fn a_batch_is_decided_in_phase_order_from_the_tick_start_states() {
    let with_intent = ManeuverStatus {
        maneuver: ManeuverState::Following,
        intent: Some(LateralManeuverRequest { target_offset_m: m(1.0), target_facility: None, passed_body: AgentId::from_index(3) }),
        target_offset_m: None,
        passed_body: None,
        ..status(ManeuverState::Following)
    };
    let statuses = vec![
        Some(with_intent),
        Some(status(ManeuverState::Preparing)),
        Some(status(ManeuverState::Preparing)),
        None,
    ];
    let step = vec![
        StepFacts { attempt: Attempt::Admissible { predicted_clearance_m: m(0.7) }, ..facts() },
        facts(),
        facts(),
        facts(),
    ];
    let outcomes = vec![
        ClaimOutcome { agent: AgentId::from_index(2), granted: false },
        ClaimOutcome { agent: AgentId::from_index(1), granted: true },
    ];
    let plans = plan_batch(&statuses, &step, &outcomes, 4);
    let edges: Vec<(usize, ManeuverEdge, ManeuverState)> = plans
        .iter()
        .map(|(index, plan)| (*index, plan.transition.expect("every plan here records an edge").edge, plan.status.maneuver))
        .collect();
    assert_eq!(
        edges,
        vec![
            (0, ManeuverEdge::Attempted, ManeuverState::Preparing),
            (2, ManeuverEdge::Aborted, ManeuverState::Aborted),
            (1, ManeuverEdge::Committed, ManeuverState::Committed),
        ]
    );
}

#[test]
fn a_handoff_is_recorded_once_with_every_field_on_its_event() {
    let record = FacilityTransitionRecord {
        agent: AgentId::from_index(1),
        from_facility: FacilityId::from_index(0),
        to_facility: FacilityId::from_index(2),
        from_direction: MovementDirection::Forward,
        to_direction: MovementDirection::Reverse,
        via: TransitionKind::Lateral,
        side: PassSide::Left,
        s_m: m(12.5),
        d_m: m(1.75),
        permitted: false,
    };
    let mut records = Vec::new();
    let mut events = Vec::new();
    record_facility_transition(record, &mut records, &mut events);
    assert_eq!(records, vec![record]);
    assert_eq!(
        events,
        vec![Event::FacilityTransition {
            agent: AgentId::from_index(1),
            from_facility: FacilityId::from_index(0),
            to_facility: FacilityId::from_index(2),
            from_direction: MovementDirection::Forward,
            to_direction: MovementDirection::Reverse,
            via: TransitionKind::Lateral,
            side: PassSide::Left,
            s_m: m(12.5),
            d_m: m(1.75),
            permitted: false,
        }]
    );
}

#[test]
fn a_change_of_lane_hands_off_out_and_back_over_one_adjacency() {
    let committed = ManeuverStatus {
        target_facility: Some(FacilityId::from_index(3)),
        ..status(ManeuverState::Committed)
    };
    assert_eq!(lateral_handoff_target(committed), Some((FacilityId::from_index(3), false)));
    let out = handed_off(committed, FacilityId::from_index(3), false, m(-1.5));
    assert_eq!(out.facility, FacilityId::from_index(3));
    assert_eq!(out.return_facility, Some(FacilityId::from_index(0)));
    assert_eq!(out.target_facility, None);
    assert!(out.entering_facility);
    let returning = ManeuverStatus { maneuver: ManeuverState::Returning, ..out };
    assert_eq!(lateral_handoff_target(returning), Some((FacilityId::from_index(0), true)));
    let back = handed_off(returning, FacilityId::from_index(0), true, m(1.5));
    assert_eq!(back.facility, FacilityId::from_index(0));
    assert_eq!(back.return_facility, None);
    assert_eq!(lateral_handoff_target(back), None);
    assert_eq!(lateral_handoff_target(status(ManeuverState::Preparing)), None);
}

fn ahead(id: usize, crosses: bool, entry: Option<f64>) -> CrossingAhead {
    CrossingAhead { crossing: CrossingId::from_index(id), crosses_movement: crosses, entry_m: entry.map(m) }
}

#[test]
fn the_next_crossing_is_the_nearest_one_ahead_that_the_movement_crosses() {
    let crossings = vec![
        ahead(0, true, Some(5.0)),   // behind the front
        ahead(1, false, Some(20.0)), // another movement's crossing
        ahead(2, true, Some(40.0)),
        ahead(3, true, None),        // not on this path
        ahead(4, true, Some(25.0)),
    ];
    assert_eq!(next_crossing(m(10.0), &crossings), Some(CrossingId::from_index(4)));
}

#[test]
fn an_entry_at_the_front_is_not_ahead_and_a_tie_goes_to_the_lower_id() {
    let crossings = vec![ahead(0, true, Some(10.0)), ahead(1, true, Some(30.0)), ahead(2, true, Some(30.0))];
    assert_eq!(next_crossing(m(10.0), &crossings), Some(CrossingId::from_index(1)));
    assert_eq!(next_crossing(m(30.0), &crossings), None);
    assert_eq!(next_crossing(m(0.0), &Vec::new()), None);
}

#[test]
fn the_far_side_of_a_crossing_is_known_from_preparing_through_the_return() {
    let lane = FacilityId::from_index(1);
    let preparing = ManeuverStatus { target_facility: Some(lane), ..status(ManeuverState::Preparing) };
    assert_eq!(crossing_far_facility(preparing), Some(lane));
    let committed = ManeuverStatus { target_facility: Some(lane), ..status(ManeuverState::Committed) };
    assert_eq!(crossing_far_facility(committed), Some(lane));
    let returning = ManeuverStatus { facility: lane, return_facility: Some(FacilityId::from_index(0)), ..status(ManeuverState::Returning) };
    assert_eq!(crossing_far_facility(returning), Some(FacilityId::from_index(0)));
    // A following agent, and a maneuver that stays on its own band, cross nothing.
    assert_eq!(crossing_far_facility(ManeuverStatus { target_facility: Some(lane), ..status(ManeuverState::Following) }), None);
    let same_band = ManeuverStatus { target_facility: Some(FacilityId::from_index(0)), ..status(ManeuverState::Committed) };
    assert_eq!(crossing_far_facility(same_band), None);
    assert_eq!(crossing_far_facility(status(ManeuverState::Aborted)), None);
}

#[test]
fn a_committed_claimant_stays_in_the_batch_and_keeps_its_state() {
    let committed = ManeuverStatus { target_facility: None, ..status(ManeuverState::Committed) };
    let statuses = vec![Some(committed), Some(status(ManeuverState::Preparing))];
    let holding = StepFacts {
        committed: CommittedFacts {
            passed_alive: true,
            prediction: Some(hekate_sim::lifecycle::LegPrediction {
                swept_clearance_m: m(0.9),
                feasible: true,
                below_policy_minimum: false,
                within_target_clearance: false,
            }),
            passed_cleared: false,
            hold_elapsed: false,
        },
        ..facts()
    };
    let step = vec![holding, facts()];
    // The committed agent's own claim is in the batch with the new claimant's.
    let outcomes = vec![
        ClaimOutcome { agent: AgentId::from_index(0), granted: true },
        ClaimOutcome { agent: AgentId::from_index(1), granted: true },
    ];
    let plans = plan_batch(&statuses, &step, &outcomes, 4);
    let agents: Vec<usize> = plans.iter().map(|(index, _)| *index).collect();
    assert_eq!(agents, vec![0, 1]);
    assert_eq!(plans[0].1.transition, None);
    assert_eq!(plans[0].1.status.maneuver, ManeuverState::Committed);
    assert_eq!(plans[1].1.transition.map(|t| t.edge), Some(ManeuverEdge::Committed));
}
