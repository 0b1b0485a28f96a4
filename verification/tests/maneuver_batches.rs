use hekate_sim::event::{Event, ManeuverReasonCode};
use hekate_sim::ids::{AgentId, AgentMode, FacilityId, PathId, TacticKind};
use hekate_sim::lifecycle::{
    apply_plans, plan_batch, Attempt, ClaimOutcome, CommittedFacts, LateralManeuverRequest, LegPrediction,
    ManeuverStatus, ManeuverTransition, PreparingFacts, StepFacts,
};
use hekate_sim::measure::Measure;
use hekate_sim::roster::{announce_population, PopulationSlot};
use hekate_sim::safety::{PairReading, SafetyMonitor};
use hekate_sim::stage::{ManeuverAbortReason, ManeuverEdge, ManeuverState, PassSide};

const MANEUVER_TARGET_M: f64 = 0.3;

fn m(value: f64) -> Measure {
    Measure::from_bits(value.to_bits())
}

fn rider() -> AgentId {
    AgentId::from_index(0)
}

fn passed() -> AgentId {
    AgentId::from_index(1)
}

fn following() -> ManeuverStatus {
    ManeuverStatus {
        maneuver: ManeuverState::Following,
        facility: FacilityId::from_index(0),
        return_facility: None,
        intent: None,
        target_offset_m: None,
        target_facility: None,
        passed_body: None,
        corridor_fixed: false,
        predicted_min_clearance_m: None,
        pre_maneuver_offset_m: m(0.0),
        d_m: m(0.0),
        state_since: None,
        hold_since: None,
        settled_since: None,
        braking: false,
        return_blocked: false,
        entering_facility: false,
        maneuver_reason: None,
    }
}

fn calm() -> StepFacts {
    StepFacts {
        alive: true,
        attempt: Attempt::Admissible { predicted_clearance_m: m(0.9) },
        preparing: PreparingFacts { passed_alive: true, hold_elapsed: false, prediction_feasible: true },
        committed: CommittedFacts {
            passed_alive: true,
            prediction: Some(LegPrediction {
                swept_clearance_m: m(0.9),
                feasible: true,
                below_policy_minimum: false,
                within_target_clearance: false,
            }),
            passed_cleared: false,
            hold_elapsed: false,
        },
        at_target: false,
        return_obstructed: false,
    }
}

/// One step of the rider's maneuver pass: decide the batch from the
/// tick-start statuses and apply it, returning the recorded transitions and
/// `Maneuver` records. The rider claims alone, so its claim is granted.
fn step(
    statuses: &mut Vec<Option<ManeuverStatus>>,
    rider_facts: StepFacts,
    claim: bool,
    now: u64,
) -> (Vec<ManeuverTransition>, Vec<Event>) {
    let facts = vec![rider_facts, StepFacts { alive: true, ..calm() }];
    let outcomes = if claim { vec![ClaimOutcome { agent: rider(), granted: true }] } else { Vec::new() };
    let plans = plan_batch(statuses, &facts, &outcomes, now);
    let mut transitions = Vec::new();
    let mut events = Vec::new();
    apply_plans(statuses, &plans, &vec![true, true], &mut transitions, &mut events);
    (transitions, events)
}

fn rider_state(statuses: &Vec<Option<ManeuverStatus>>) -> ManeuverStatus {
    statuses[0].expect("the rider has a route state")
}

fn requested() -> Vec<Option<ManeuverStatus>> {
    let request = LateralManeuverRequest { target_offset_m: m(MANEUVER_TARGET_M), target_facility: None, passed_body: passed() };
    vec![Some(ManeuverStatus { intent: Some(request), ..following() }), Some(following())]
}

fn edges(transitions: &[ManeuverTransition]) -> Vec<ManeuverEdge> {
    transitions.iter().map(|t| t.edge).collect()
}

#[test]
fn a_maneuver_transition_emits_one_event_carrying_the_maneuver_facts() {
    let fact = |from, to, edge, reason| Event::Maneuver {
        agent: rider(),
        kind: TacticKind::Pass,
        from,
        to,
        edge,
        partner: Some(passed()),
        source_facility: FacilityId::from_index(0),
        target_facility: None,
        target_offset_m: m(MANEUVER_TARGET_M),
        side: PassSide::Left,
        reason,
    };
    let mut statuses = requested();

    let (_, events) = step(&mut statuses, calm(), false, 1);
    assert_eq!(
        events,
        vec![fact(ManeuverState::Following, ManeuverState::Preparing, ManeuverEdge::Attempted, ManeuverReasonCode::SlowerLeader)]
    );

    let (_, events) = step(&mut statuses, calm(), true, 2);
    assert_eq!(
        events,
        vec![fact(ManeuverState::Preparing, ManeuverState::Committed, ManeuverEdge::Committed, ManeuverReasonCode::SlowerLeader)]
    );

    let cleared = StepFacts { committed: CommittedFacts { passed_cleared: true, ..calm().committed }, ..calm() };
    let (_, events) = step(&mut statuses, cleared, false, 3);
    assert_eq!(
        events,
        vec![fact(ManeuverState::Committed, ManeuverState::Returning, ManeuverEdge::Completed, ManeuverReasonCode::Settled)]
    );

    // The return leg reaches its offset, holds it for one decision, and
    // settles; the facts of the maneuver that ended are still reported.
    let arrived = StepFacts { at_target: true, ..calm() };
    let mut settled = None;
    for now in 4..10 {
        let (_, events) = step(&mut statuses, arrived, false, now);
        if let Some(event) = events.first().cloned() {
            settled = Some(event);
            break;
        }
    }
    assert_eq!(
        settled,
        Some(fact(ManeuverState::Returning, ManeuverState::Following, ManeuverEdge::Completed, ManeuverReasonCode::Settled))
    );

    // A step that records no transition emits no `Maneuver` event.
    for now in 20..25 {
        let (transitions, events) = step(&mut statuses, calm(), false, now);
        assert!(transitions.is_empty());
        assert!(events.is_empty());
    }
}

#[test]
fn a_transition_with_no_fixed_target_reports_the_payload_defaults() {
    // A `preparing` maneuver that never fixed a target or a passed body: its
    // due claim finds no target and aborts.
    let preparing = ManeuverStatus {
        maneuver: ManeuverState::Preparing,
        state_since: Some(0),
        corridor_fixed: true,
        ..following()
    };
    let mut statuses = vec![Some(preparing), Some(following())];
    let (_, events) = step(&mut statuses, calm(), false, 1);
    assert_eq!(
        events,
        vec![Event::Maneuver {
            agent: rider(),
            kind: TacticKind::Pass,
            from: ManeuverState::Preparing,
            to: ManeuverState::Aborted,
            edge: ManeuverEdge::Aborted,
            partner: None,
            source_facility: FacilityId::from_index(0),
            target_facility: None,
            target_offset_m: m(0.0),
            side: PassSide::Left,
            reason: ManeuverReasonCode::TargetLost,
        }]
    );
}

#[test]
fn a_disappearing_target_aborts_the_maneuver() {
    let mut statuses = requested();
    let (transitions, _) = step(&mut statuses, calm(), false, 1);
    assert_eq!(edges(&transitions), vec![ManeuverEdge::Attempted]);

    // The passed body leaves the world before the claim is decided.
    let gone = StepFacts { preparing: PreparingFacts { passed_alive: false, ..calm().preparing }, ..calm() };
    let (transitions, _) = step(&mut statuses, gone, false, 2);
    assert_eq!(edges(&transitions), vec![ManeuverEdge::Aborted]);
    assert_eq!(transitions[0].reason, Some(ManeuverAbortReason::TargetLost));
    assert_eq!(rider_state(&statuses).maneuver, ManeuverState::Aborted);

    let arrived = StepFacts { at_target: true, ..calm() };
    let mut back_to_following = false;
    for now in 3..40 {
        step(&mut statuses, arrived, false, now);
        if rider_state(&statuses).maneuver == ManeuverState::Following {
            back_to_following = true;
            break;
        }
    }
    assert!(back_to_following, "an aborted maneuver returns to following");
}

#[test]
fn a_preparing_hold_timeout_aborts_the_maneuver() {
    let mut statuses = requested();
    let (transitions, _) = step(&mut statuses, calm(), false, 1);
    assert_eq!(edges(&transitions), vec![ManeuverEdge::Attempted]);

    let elapsed = StepFacts { preparing: PreparingFacts { hold_elapsed: true, ..calm().preparing }, ..calm() };
    let (transitions, _) = step(&mut statuses, elapsed, false, 2);
    assert_eq!(edges(&transitions), vec![ManeuverEdge::Aborted]);
    assert_eq!(transitions[0].reason, Some(ManeuverAbortReason::HoldTimeout));
    let state = rider_state(&statuses);
    assert_eq!(state.maneuver, ManeuverState::Aborted);
    assert_eq!(state.target_offset_m, Some(m(MANEUVER_TARGET_M)));
}

/// Commit the rider: attempt, then a granted claim.
fn committed_rider() -> Vec<Option<ManeuverStatus>> {
    let mut statuses = requested();
    step(&mut statuses, calm(), false, 1);
    let (transitions, _) = step(&mut statuses, calm(), true, 2);
    assert_eq!(edges(&transitions), vec![ManeuverEdge::Committed]);
    statuses
}

fn with_prediction(prediction: LegPrediction, hold_elapsed: bool) -> StepFacts {
    StepFacts { committed: CommittedFacts { prediction: Some(prediction), hold_elapsed, ..calm().committed }, ..calm() }
}

#[test]
fn a_committed_maneuver_aborts_below_the_policy_minimum() {
    let mut statuses = committed_rider();
    let lost = LegPrediction {
        swept_clearance_m: m(0.1),
        feasible: true,
        below_policy_minimum: true,
        within_target_clearance: true,
    };
    let (transitions, _) = step(&mut statuses, with_prediction(lost, false), false, 3);
    assert_eq!(edges(&transitions), vec![ManeuverEdge::Aborted]);
    assert_eq!(transitions[0].reason, Some(ManeuverAbortReason::ClearanceLost));
    assert_eq!(rider_state(&statuses).maneuver, ManeuverState::Aborted);
}

#[test]
fn a_committed_hold_timeout_aborts_the_maneuver() {
    let mut statuses = committed_rider();
    let tight = LegPrediction {
        swept_clearance_m: m(0.5),
        feasible: true,
        below_policy_minimum: false,
        within_target_clearance: true,
    };
    let mut aborted_at = None;
    for now in 3..43u64 {
        // The hold times out half a second after it began, at 0.1 s steps.
        let since = rider_state(&statuses).hold_since.unwrap_or(now);
        let elapsed = now - since >= 5;
        let (transitions, _) = step(&mut statuses, with_prediction(tight, elapsed), false, now);
        if transitions.first().map(|t| t.edge) == Some(ManeuverEdge::Aborted) {
            assert_eq!(transitions[0].reason, Some(ManeuverAbortReason::HoldTimeout));
            aborted_at = Some(now - 3);
            break;
        }
        assert!(rider_state(&statuses).braking, "the hold brakes every step");
    }
    assert!(aborted_at.is_some_and(|step| step < 20), "the hold times out within its window: {aborted_at:?}");
}

#[test]
fn first_step_announces_initial_population() {
    let slots: Vec<PopulationSlot> = (0..6)
        .map(|index| PopulationSlot {
            alive: true,
            mode: AgentMode::Pedestrian,
            path: PathId::from_index(0),
            distance_m: m(index as f64 * 2.0),
        })
        .collect();
    let events = announce_population(&slots);
    assert_eq!(events.len(), 6);
    assert!(events.iter().all(|event| matches!(event, Event::Spawned { .. })));
}

#[test]
fn a_trailer_segment_contact_is_detected_and_named() {
    let chain = AgentId::from_index(0);
    let obstacle = AgentId::from_index(1);
    let mut monitor = SafetyMonitor::new();
    let mut events = Vec::new();
    monitor.scan_pair(
        PairReading {
            first: chain,
            second: obstacle,
            chain: true,
            contact: true,
            near: false,
            clearance_m: m(-1.0),
            first_segment: Some(1),
            second_segment: None,
        },
        &mut events,
    );
    let contact = events
        .iter()
        .find(|event| matches!(event, Event::ArticulatedSegmentContact { contacting: true, .. }))
        .unwrap_or_else(|| panic!("expected an articulated segment contact: {events:?}"));
    let Event::ArticulatedSegmentContact { agent, agent_segment, other, other_segment, contacting, .. } = contact else {
        unreachable!("matched above");
    };
    assert_eq!(*agent, chain);
    assert_eq!(*agent_segment, Some(1), "segment 1 is the trailer");
    assert_eq!(*other, obstacle);
    assert_eq!(*other_segment, None, "the obstacle is not a chain");
    assert!(*contacting);
    assert!(
        !events.iter().any(|event| matches!(event, Event::Collision { .. })),
        "a chain-involved contact must not also emit a plain Collision: {events:?}"
    );
}
