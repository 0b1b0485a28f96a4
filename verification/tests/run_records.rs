use hekate_sim::measure::Measure;
use hekate_sim::run::{
    check_init, step_is_valid, ControllerModelNames, InitError, PerformanceCounters, RunSummary,
    SnapshotDetail,
};

fn m(value: f64) -> Measure {
    Measure::from_bits(value.to_bits())
}

#[test]
fn rejects_a_non_positive_step() {
    assert_eq!(check_init(m(0.0), 0, 0, 0, None), Err(InitError::InvalidStep { step: m(0.0) }));
    assert_eq!(check_init(m(-0.1), 1, 0, 0, None), Err(InitError::InvalidStep { step: m(-0.1) }));
    assert!(check_init(m(f64::INFINITY), 1, 0, 0, None).is_err());
    assert!(check_init(m(f64::NAN), 1, 0, 0, None).is_err());
    assert!(step_is_valid(m(0.1)));
    assert!(!step_is_valid(m(-0.0)));
}

#[test]
fn rejects_a_population_without_a_guide_path() {
    assert_eq!(check_init(m(0.1), 0, 0, 2, None), Err(InitError::NoGuidePath { vehicles: 2 }));
}

#[test]
fn rejects_a_population_that_does_not_fit() {
    assert_eq!(
        check_init(m(0.1), 0, 0, 6, Some(1)),
        Err(InitError::PopulationOverflow { requested: 6, capacity: 1 })
    );
}

#[test]
fn a_demand_scenario_places_no_static_population() {
    assert_eq!(check_init(m(0.1), 1, 0, 5, None), Ok(0));
    assert_eq!(check_init(m(0.1), 0, 2, 5, None), Ok(0));
    assert_eq!(check_init(m(0.1), 0, 0, 0, None), Ok(0));
    assert_eq!(check_init(m(0.1), 0, 0, 3, Some(3)), Ok(3));
}

#[test]
fn the_initial_models_are_idm_the_narrow_idm_and_the_waypoint_controller() {
    assert_eq!(
        ControllerModelNames::initial(),
        ControllerModelNames {
            vehicle: "idm",
            narrow: "idm-narrow",
            pedestrian: "waypoint",
        }
    );
}

#[test]
fn a_summary_reports_what_it_was_built_with() {
    let summary = RunSummary::new("walking_guide_v1".to_string(), 42, 250, m(25.0), 11, 10, 1, 1);
    assert_eq!(summary.scenario_id(), "walking_guide_v1");
    assert_eq!(summary.seed(), 42);
    assert_eq!(summary.ticks(), 250);
    assert_eq!(summary.elapsed(), m(25.0));
    assert_eq!(summary.spawned(), 11);
    assert_eq!(summary.despawned(), 10);
    assert_eq!(summary.dropped(), 1);
    assert_eq!(summary.remaining(), 1);
}

#[test]
fn counters_and_snapshot_detail_default_to_the_quiet_values() {
    assert_eq!(
        PerformanceCounters::default(),
        PerformanceCounters { broad_phase_candidates: 0, predictions: 0, prediction_candidates: 0 }
    );
    assert_eq!(SnapshotDetail::default(), SnapshotDetail::Position);
}
