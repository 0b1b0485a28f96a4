use hekate_sim::event::Event;
use hekate_sim::ids::{AgentId, AgentMode, PathId};
use hekate_sim::measure::Measure;
use hekate_sim::roster::{advance_waypoint, announce_population, PopulationSlot};

fn m(value: f64) -> Measure {
    Measure::from_bits(value.to_bits())
}

fn slot(alive: bool, mode: AgentMode, path: usize, distance: f64) -> PopulationSlot {
    PopulationSlot { alive, mode, path: PathId::from_index(path), distance_m: m(distance) }
}

#[test]
fn the_first_step_announces_each_live_agent_once_in_agent_order() {
    let slots = vec![
        slot(true, AgentMode::Vehicle, 0, 0.0),
        slot(false, AgentMode::Vehicle, 0, 8.0),
        slot(true, AgentMode::Pedestrian, 1, 16.5),
    ];
    let records = announce_population(&slots);
    assert_eq!(
        records,
        vec![
            Event::Spawned {
                agent: AgentId::from_index(0),
                mode: AgentMode::Vehicle,
                path: PathId::from_index(0),
                distance_m: m(0.0),
            },
            Event::Spawned {
                agent: AgentId::from_index(2),
                mode: AgentMode::Pedestrian,
                path: PathId::from_index(1),
                distance_m: m(16.5),
            },
        ]
    );
}

#[test]
fn an_empty_or_dead_roster_announces_nothing() {
    assert!(announce_population(&Vec::new()).is_empty());
    let slots = vec![slot(false, AgentMode::Vehicle, 0, 1.0), slot(false, AgentMode::Pedestrian, 0, 2.0)];
    assert!(announce_population(&slots).is_empty());
}

#[test]
fn the_waypoint_cursor_passes_every_reached_waypoint() {
    let plan = vec![m(0.0), m(5.0), m(10.0), m(15.0)];
    assert_eq!(advance_waypoint(0, m(-1.0), &plan), 0);
    assert_eq!(advance_waypoint(0, m(0.0), &plan), 1);
    assert_eq!(advance_waypoint(0, m(7.5), &plan), 2);
    assert_eq!(advance_waypoint(0, m(10.0), &plan), 3);
}

#[test]
fn the_waypoint_cursor_never_moves_back_or_off_the_last_waypoint() {
    let plan = vec![m(0.0), m(5.0), m(10.0)];
    // A cursor already past the progress stays where it is.
    assert_eq!(advance_waypoint(2, m(1.0), &plan), 2);
    assert_eq!(advance_waypoint(1, m(1.0), &plan), 1);
    // Progress beyond the end stops on the last waypoint.
    assert_eq!(advance_waypoint(0, m(1000.0), &plan), 2);
    // A single-waypoint plan keeps its only target.
    assert_eq!(advance_waypoint(0, m(1000.0), &vec![m(3.0)]), 0);
    // A NaN progress reaches nothing.
    assert_eq!(advance_waypoint(0, m(f64::NAN), &plan), 0);
}

#[test]
fn advancing_again_at_the_same_progress_keeps_the_cursor() {
    let plan = vec![m(0.0), m(5.0), m(10.0), m(15.0)];
    let once = advance_waypoint(0, m(6.0), &plan);
    assert_eq!(advance_waypoint(once, m(6.0), &plan), once);
    let later = advance_waypoint(once, m(12.0), &plan);
    assert!(later >= once);
    assert_eq!(later, 3);
}
