use hekate_sim::event::{ControlTransitionKind, Event, RegionKey, ViolationKind};
use hekate_sim::ids::{AgentId, AgentMode, CrossingId};
use hekate_sim::measure::Measure;
use hekate_sim::safety::{
    control_kind, pedestrian_crossing_violation, waiting_state, PairKey, PairReading,
    PedestrianCrossingDecision, PedestrianSignalAction, PedestrianSignalColor, SafetyMonitor,
    SignalAction, SlotFacts,
};

/// The near-miss band's outer clearance in metres.
const NEAR_MISS_THRESHOLD_M: f64 = 1.0;

fn m(value: f64) -> Measure {
    Measure::from_bits(value.to_bits())
}

/// The swept reading of two circles of radius 0.25 on the x axis: the still
/// body at the origin and the moving body going from `start_x` to `end_x`.
fn reading(first: AgentId, second: AgentId, start_x: f64, end_x: f64) -> PairReading {
    let closest = if start_x <= 0.0 && end_x >= 0.0 { 0.0 } else { start_x.abs().min(end_x.abs()) };
    let swept_clearance = closest - 0.5;
    let contact = swept_clearance <= 0.0;
    PairReading {
        first,
        second,
        chain: false,
        contact,
        near: !contact && swept_clearance <= NEAR_MISS_THRESHOLD_M,
        clearance_m: m(end_x.abs() - 0.5),
        first_segment: None,
        second_segment: None,
    }
}

#[test]
fn a_pair_reports_one_edge_per_transition() {
    let first = AgentId::from_index(0);
    let second = AgentId::from_index(1);
    let mut monitor = SafetyMonitor::new();
    let mut x = -3.0_f64;
    let mut tick = |monitor: &mut SafetyMonitor| {
        let start = x;
        x += 0.4;
        let mut events = Vec::new();
        monitor.scan_pair(reading(first, second, start, x), &mut events);
        events
    };
    let near = |clearance: f64, entering: bool| Event::NearMiss {
        agent: first,
        other: second,
        clearance_m: m(clearance),
        entering,
    };
    let collision = |clearance: f64, contacting: bool| Event::Collision {
        agent: first,
        other: second,
        clearance_m: m(clearance),
        contacting,
    };
    let close = |events: Vec<Event>, expected: Vec<Event>| {
        assert_eq!(events.len(), expected.len(), "{events:?}");
        for (event, expected) in events.iter().zip(expected.iter()) {
            match (event, expected) {
                (
                    Event::NearMiss { clearance_m: a, entering: e1, .. },
                    Event::NearMiss { clearance_m: b, entering: e2, .. },
                )
                | (
                    Event::Collision { clearance_m: a, contacting: e1, .. },
                    Event::Collision { clearance_m: b, contacting: e2, .. },
                ) => {
                    assert_eq!(e1, e2);
                    let (a, b) = (f64::from_bits(a.to_bits()), f64::from_bits(b.to_bits()));
                    assert!((a - b).abs() < 1e-9, "{a} vs {b}");
                }
                _ => panic!("{event:?} is not {expected:?}"),
            }
        }
    };
    for _ in 0..3 {
        assert!(tick(&mut monitor).is_empty());
    }
    close(tick(&mut monitor), vec![near(0.9, true)]);
    for _ in 0..2 {
        assert!(tick(&mut monitor).is_empty());
    }
    close(tick(&mut monitor), vec![collision(-0.3, true), near(-0.3, false)]);
    for _ in 0..2 {
        assert!(tick(&mut monitor).is_empty());
    }
    close(tick(&mut monitor), vec![collision(0.5, false), near(0.5, true)]);
    for _ in 0..2 {
        assert!(tick(&mut monitor).is_empty());
    }
    close(tick(&mut monitor), vec![near(1.7, false)]);
    assert!(monitor.pairs_closed());
}

#[test]
fn an_open_pair_outside_the_candidate_window_is_closed() {
    let first = AgentId::from_index(0);
    let second = AgentId::from_index(1);
    let mut monitor = SafetyMonitor::new();
    let mut events = Vec::new();
    monitor.scan_pair(
        PairReading {
            first,
            second,
            chain: false,
            contact: false,
            near: true,
            clearance_m: m(0.5),
            first_segment: None,
            second_segment: None,
        },
        &mut events,
    );
    assert_eq!(monitor.stale_pairs(&vec![]), vec![PairKey { first, second }]);
    assert!(monitor.stale_pairs(&vec![PairKey { first, second }]).is_empty());
    let mut events = Vec::new();
    monitor.close_stale(
        &vec![PairReading {
            first,
            second,
            chain: false,
            contact: false,
            near: false,
            clearance_m: m(0.1),
            first_segment: None,
            second_segment: None,
        }],
        &mut events,
    );
    assert_eq!(
        events,
        vec![Event::NearMiss { agent: first, other: second, clearance_m: m(0.1), entering: false }]
    );
    assert!(monitor.pairs_closed());
}

fn vehicle_slot(alive: bool, stopped: bool, action: Option<SignalAction>) -> SlotFacts {
    SlotFacts {
        alive,
        mode: AgentMode::Vehicle,
        stopped,
        vehicle_action: action,
        pedestrian_decision: None,
    }
}

#[test]
fn a_despawn_closes_each_state_exactly_once() {
    let vehicle = AgentId::from_index(0);
    let mut monitor = SafetyMonitor::new();
    let mut events = Vec::new();
    monitor.forget_dead(&vec![true]);
    monitor.scan_states(&vec![vehicle_slot(true, true, Some(SignalAction::Stop))], &mut events);
    assert_eq!(
        events,
        vec![
            Event::Queue { agent: vehicle, joined: true },
            Event::ControlTransition {
                agent: vehicle,
                control: ControlTransitionKind::SignalStop,
                active: true,
            },
        ]
    );
    let mut events = Vec::new();
    monitor.scan_states(&vec![vehicle_slot(true, true, Some(SignalAction::Stop))], &mut events);
    assert!(events.is_empty());
    let mut events = Vec::new();
    monitor.forget_dead(&vec![false]);
    monitor.scan_states(&vec![vehicle_slot(false, true, Some(SignalAction::Stop))], &mut events);
    assert_eq!(
        events,
        vec![
            Event::Queue { agent: vehicle, joined: false },
            Event::ControlTransition {
                agent: vehicle,
                control: ControlTransitionKind::SignalStop,
                active: false,
            },
        ]
    );
    assert!(!monitor.queue_state(vehicle) && !monitor.control_state(vehicle));
}

fn pedestrian_slot(decision: Option<PedestrianCrossingDecision>) -> SlotFacts {
    SlotFacts {
        alive: true,
        mode: AgentMode::Pedestrian,
        stopped: false,
        vehicle_action: None,
        pedestrian_decision: decision,
    }
}

#[test]
fn a_wait_decision_reports_one_control_transition() {
    let pedestrian = AgentId::from_index(0);
    let mut monitor = SafetyMonitor::new();
    let wait = PedestrianCrossingDecision {
        action: PedestrianSignalAction::Wait,
        signal: PedestrianSignalColor::DontWalk,
        crossing_gap_m: m(2.0),
    };
    let mut events = Vec::new();
    monitor.scan_states(&vec![pedestrian_slot(Some(wait))], &mut events);
    events.retain(|event| matches!(event, Event::ControlTransition { .. }));
    assert_eq!(
        events,
        vec![Event::ControlTransition {
            agent: pedestrian,
            control: ControlTransitionKind::CrossingWait,
            active: true,
        }]
    );
    let mut events = Vec::new();
    monitor.scan_states(&vec![pedestrian_slot(None)], &mut events);
    events.retain(|event| matches!(event, Event::ControlTransition { .. }));
    assert_eq!(
        events,
        vec![Event::ControlTransition {
            agent: pedestrian,
            control: ControlTransitionKind::CrossingWait,
            active: false,
        }]
    );
}

#[test]
fn region_edges_are_swept_and_report_one_violation_per_entry() {
    let region = RegionKey::Crossing(CrossingId::from_index(0));
    let pedestrian = AgentId::from_index(0);
    let against = PedestrianCrossingDecision {
        action: PedestrianSignalAction::Cross,
        signal: PedestrianSignalColor::DontWalk,
        crossing_gap_m: m(1.0),
    };
    let mut monitor = SafetyMonitor::new();
    let slots = vec![pedestrian_slot(Some(against))];
    // The 8 m step from x = -5 to x = 3 sweeps through the 2 m region.
    let mut events = Vec::new();
    monitor.scan_region(&slots, &vec![true], region, true, &mut events);
    assert_eq!(
        events,
        vec![
            Event::Entry { agent: pedestrian, region },
            Event::Violation { agent: pedestrian, kind: ViolationKind::CrossedAgainstSignal },
        ]
    );
    let mut events = Vec::new();
    monitor.scan_region(&slots, &vec![false], region, true, &mut events);
    assert_eq!(events, vec![Event::Exit { agent: pedestrian, region }]);
}

#[test]
fn the_recorded_decisions_name_the_control_kind_and_the_violation() {
    assert_eq!(control_kind(AgentMode::Vehicle), ControlTransitionKind::SignalStop);
    assert_eq!(control_kind(AgentMode::Pedestrian), ControlTransitionKind::CrossingWait);
    let against = PedestrianCrossingDecision {
        action: PedestrianSignalAction::Cross,
        signal: PedestrianSignalColor::DontWalk,
        crossing_gap_m: m(1.0),
    };
    assert_eq!(
        pedestrian_crossing_violation(AgentMode::Pedestrian, Some(against)),
        Some(ViolationKind::CrossedAgainstSignal)
    );
    let arrived = PedestrianCrossingDecision { crossing_gap_m: m(0.0), ..against };
    assert_eq!(pedestrian_crossing_violation(AgentMode::Pedestrian, Some(arrived)), None);
    let unknown = PedestrianCrossingDecision { crossing_gap_m: m(f64::NAN), ..against };
    assert_eq!(pedestrian_crossing_violation(AgentMode::Pedestrian, Some(unknown)), None);
    let negative_zero = PedestrianCrossingDecision { crossing_gap_m: m(-0.0), ..against };
    assert_eq!(pedestrian_crossing_violation(AgentMode::Pedestrian, Some(negative_zero)), None);
    let walking = PedestrianCrossingDecision { signal: PedestrianSignalColor::Walk, ..against };
    assert_eq!(pedestrian_crossing_violation(AgentMode::Pedestrian, Some(walking)), None);
    assert_eq!(pedestrian_crossing_violation(AgentMode::Vehicle, Some(against)), None);
    assert!(waiting_state(AgentMode::Vehicle, Some(SignalAction::Stop), None));
    assert!(!waiting_state(AgentMode::Vehicle, Some(SignalAction::Proceed), None));
    assert!(waiting_state(AgentMode::Pedestrian, None, Some(PedestrianSignalAction::Wait)));
}

#[test]
fn stale_pairs_come_in_ascending_pair_order_whatever_the_open_order() {
    let mut monitor = SafetyMonitor::new();
    let mut events = Vec::new();
    let contact = |first: usize, second: usize| PairReading {
        first: AgentId::from_index(first),
        second: AgentId::from_index(second),
        chain: false,
        contact: true,
        near: false,
        clearance_m: m(-0.1),
        first_segment: None,
        second_segment: None,
    };
    monitor.scan_pair(contact(2, 3), &mut events);
    monitor.scan_pair(contact(0, 5), &mut events);
    monitor.scan_pair(contact(0, 1), &mut events);
    let key = |first: usize, second: usize| PairKey { first: AgentId::from_index(first), second: AgentId::from_index(second) };
    assert_eq!(monitor.stale_pairs(&vec![key(0, 5)]), vec![key(0, 1), key(2, 3)]);
    assert_eq!(monitor.stale_pairs(&Vec::new()), vec![key(0, 1), key(0, 5), key(2, 3)]);
}
