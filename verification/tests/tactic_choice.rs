use hekate_sim::choice::{choose_tactic, AbortCondition, Observed, TacticReason, TacticTarget};
use hekate_sim::ids::{AgentId, CrossingId};
use hekate_sim::stage::ManeuverState;

#[test]
fn a_vehicle_with_only_a_leader_follows_it() {
    let observed = Observed::Vehicle { stop_line: false, crossing_yield: None, leader: Some(AgentId::from_index(1)) };
    let tactic = choose_tactic(observed, ManeuverState::Following, 7);
    assert_eq!(tactic.reason, TacticReason::Follow);
    assert_eq!(tactic.target, TacticTarget::Leader(AgentId::from_index(1)));
    assert_eq!(tactic.maneuver_state, ManeuverState::Following);
    assert_eq!(tactic.abort, AbortCondition::ConstraintClears);
    assert_eq!(tactic.started_at, 7);
}

#[test]
fn a_stop_line_outranks_a_crossing_yield_and_a_leader() {
    let observed = Observed::Vehicle {
        stop_line: true,
        crossing_yield: Some(CrossingId::from_index(2)),
        leader: Some(AgentId::from_index(1)),
    };
    let tactic = choose_tactic(observed, ManeuverState::Following, 0);
    assert_eq!(tactic.reason, TacticReason::StopLine);
    assert_eq!(tactic.target, TacticTarget::StopLine);
    assert_eq!(tactic.abort, AbortCondition::ConstraintClears);
}

#[test]
fn a_crossing_yield_outranks_a_leader() {
    let observed = Observed::Vehicle {
        stop_line: false,
        crossing_yield: Some(CrossingId::from_index(2)),
        leader: Some(AgentId::from_index(1)),
    };
    let tactic = choose_tactic(observed, ManeuverState::Following, 0);
    assert_eq!(tactic.reason, TacticReason::YieldCrossing);
    assert_eq!(tactic.target, TacticTarget::Crossing(CrossingId::from_index(2)));
}

#[test]
fn an_unconstrained_vehicle_flows_freely_until_its_route_ends() {
    let observed = Observed::Vehicle { stop_line: false, crossing_yield: None, leader: None };
    let tactic = choose_tactic(observed, ManeuverState::Committed, 3);
    assert_eq!(tactic.reason, TacticReason::FreeFlow);
    assert_eq!(tactic.target, TacticTarget::Route);
    assert_eq!(tactic.abort, AbortCondition::RouteComplete);
    // The lateral-maneuver state is the agent's own, carried unchanged.
    assert_eq!(tactic.maneuver_state, ManeuverState::Committed);
}

#[test]
fn a_pedestrian_seeks_its_waypoint_or_waits_at_its_signal() {
    let seek = choose_tactic(Observed::Pedestrian { waits: false, target: Some(4) }, ManeuverState::Following, 1);
    assert_eq!(seek.reason, TacticReason::SeekWaypoint);
    assert_eq!(seek.target, TacticTarget::Waypoint(4));
    assert_eq!(seek.abort, AbortCondition::WaypointReached);

    let wait = choose_tactic(Observed::Pedestrian { waits: true, target: Some(4) }, ManeuverState::Following, 1);
    assert_eq!(wait.reason, TacticReason::SignalWait);
    assert_eq!(wait.target, TacticTarget::Waypoint(4));
    assert_eq!(wait.abort, AbortCondition::ConstraintClears);

    let done = choose_tactic(Observed::Pedestrian { waits: false, target: None }, ManeuverState::Following, 1);
    assert_eq!(done.reason, TacticReason::SeekWaypoint);
    assert_eq!(done.target, TacticTarget::Route);
    assert_eq!(done.abort, AbortCondition::RouteComplete);

    let waiting_without_target =
        choose_tactic(Observed::Pedestrian { waits: true, target: None }, ManeuverState::Following, 1);
    assert_eq!(waiting_without_target.target, TacticTarget::Route);
}
