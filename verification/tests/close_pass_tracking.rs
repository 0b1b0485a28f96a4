use hekate_sim::close_pass::{
    band_applies, canonical_pair, close_pass_event, participating_bands, passing_pair,
    AlongsideReading, ClearanceBand, ClosePassTracker, OvertakeRecord, PassingBody,
};
use hekate_sim::event::{ClosePassBand, Event};
use hekate_sim::ids::{
    AgentId, ClearanceBandId, FacilityId, ModeTemplateId, NominalDirection, TacticalCapability,
};
use hekate_sim::measure::Measure;
use hekate_sim::stage::PassSide;

/// The fixed step every analytic run advances by.
const DT: f64 = 0.1;

fn m(value: f64) -> Measure {
    Measure::from_bits(value.to_bits())
}

fn f(measure: Measure) -> f64 {
    f64::from_bits(measure.to_bits())
}

/// The seconds a band's tick count adds up to, one step per inside tick.
fn duration(ticks: u64) -> f64 {
    let mut seconds = 0.0;
    for _ in 0..ticks {
        seconds += DT;
    }
    seconds
}

fn band(index: usize, threshold_m: f64, violation: bool, modes: Option<Vec<ModeTemplateId>>) -> ClearanceBand {
    ClearanceBand {
        id: ClearanceBandId::from_index(index),
        threshold_m: m(threshold_m),
        violation,
        applies_to_modes: modes,
    }
}

fn car() -> ModeTemplateId {
    ModeTemplateId::from_index(0)
}

fn bike() -> ModeTemplateId {
    ModeTemplateId::from_index(1)
}

/// One circular body on the straight reference along the world x axis.
#[derive(Clone, Copy)]
struct Body {
    alive: bool,
    distance_m: f64,
    direction: f64,
    x: f64,
    y: f64,
    radius_m: f64,
    speed_mps: f64,
    mode: Option<ModeTemplateId>,
    facility: Option<FacilityId>,
}

struct World {
    bodies: Vec<Body>,
    nominal: NominalDirection,
}

impl World {
    fn new() -> Self {
        World { bodies: Vec::new(), nominal: NominalDirection::Forward }
    }

    fn circle(&mut self, distance_m: f64, direction: f64, x: f64, y: f64, radius_m: f64, speed_mps: f64) {
        self.bodies.push(Body {
            alive: true,
            distance_m,
            direction,
            x,
            y,
            radius_m,
            speed_mps,
            mode: None,
            facility: None,
        });
    }

    #[allow(clippy::too_many_arguments)]
    fn rider(&mut self, mode: ModeTemplateId, distance_m: f64, direction: f64, x: f64, y: f64, radius_m: f64, speed_mps: f64) {
        self.bodies.push(Body {
            alive: true,
            distance_m,
            direction,
            x,
            y,
            radius_m,
            speed_mps,
            mode: Some(mode),
            facility: Some(FacilityId::from_index(0)),
        });
    }

    fn passing_body(&self, index: usize) -> PassingBody {
        let body = self.bodies[index];
        PassingBody {
            agent: AgentId::from_index(index),
            mode_template: body.mode,
            facility: body.facility,
            nominal_direction: body.facility.map(|_| self.nominal),
            direction: m(body.direction),
            speed_mps: m(body.speed_mps),
            lateral_m: body.facility.map(|_| m(if body.direction < 0.0 { -body.y } else { body.y })),
        }
    }

    /// Advance every live body one step and read every alongside pair.
    fn advance(&mut self, tick: u64) -> Vec<AlongsideReading> {
        let starts: Vec<(f64, f64)> = self.bodies.iter().map(|body| (body.x, body.y)).collect();
        for body in self.bodies.iter_mut().filter(|body| body.alive) {
            let step_m = body.speed_mps * DT * body.direction;
            body.distance_m += step_m;
            body.x += step_m;
        }
        let mut order: Vec<usize> = (0..self.bodies.len()).filter(|&i| self.bodies[i].alive).collect();
        let progress = |i: usize| self.bodies[i].direction * self.bodies[i].distance_m;
        order.sort_by(|&a, &b| {
            let sign = |i: usize| if self.bodies[i].direction < 0.0 { -1 } else { 1 };
            sign(a).cmp(&sign(b)).then(progress(a).total_cmp(&progress(b)))
        });
        let mut readings = Vec::new();
        for position in 0..order.len() {
            for other in (position + 1)..order.len() {
                let (a, b) = (order[position], order[other]);
                let (first, second) = (self.bodies[a], self.bodies[b]);
                if first.direction.signum() != second.direction.signum() {
                    continue;
                }
                if (progress(a) - progress(b)).abs() >= first.radius_m + second.radius_m {
                    continue;
                }
                let d0 = (starts[b].0 - starts[a].0, starts[b].1 - starts[a].1);
                let d1 = (second.x - first.x, second.y - first.y);
                let v = (d1.0 - d0.0, d1.1 - d0.1);
                let vv = v.0 * v.0 + v.1 * v.1;
                let t = if vv > 0.0 { (-(d0.0 * v.0 + d0.1 * v.1) / vv).clamp(0.0, 1.0) } else { 0.0 };
                let closest = ((d0.0 + t * v.0).powi(2) + (d0.1 + t * v.1).powi(2)).sqrt();
                readings.push(AlongsideReading {
                    first: self.passing_body(a),
                    second: self.passing_body(b),
                    clearance_m: m(closest - first.radius_m - second.radius_m),
                    time_s: m(tick as f64 * DT),
                    first_minus_second_mps: m(first.speed_mps - second.speed_mps),
                    second_minus_first_mps: m(second.speed_mps - first.speed_mps),
                });
            }
        }
        readings
    }
}

fn observe(tracker: &mut ClosePassTracker, world: &mut World, bands: &Vec<ClearanceBand>, transitions: &Vec<AgentId>, tick: u64) {
    let readings = world.advance(tick);
    tracker.observe(&readings, bands, transitions, tick);
}

fn run_two_circles(bands: &Vec<ClearanceBand>, ticks: u64, gap_m: f64, offset_m: f64, fast_mps: f64, slow_mps: f64) -> ClosePassTracker {
    let mut world = World::new();
    world.circle(0.0, 1.0, 0.0, 0.0, 0.5, fast_mps);
    world.circle(gap_m, 1.0, gap_m, offset_m, 0.5, slow_mps);
    let mut tracker = ClosePassTracker::new();
    for tick in 1..=ticks {
        observe(&mut tracker, &mut world, bands, &Vec::new(), tick);
    }
    tracker
}

fn close_band() -> Vec<ClearanceBand> {
    vec![band(0, 0.5, true, None)]
}

fn only_band(observation: &OvertakeRecord) -> (ClearanceBandId, f64) {
    assert_eq!(observation.bands.len(), 1, "expected exactly one participating band");
    (observation.bands[0].band, duration(observation.bands[0].ticks_inside))
}

#[test]
fn a_close_overtake_accumulates_its_bands_duration() {
    let tracker = run_two_circles(&close_band(), 80, 3.0, 1.2, 2.0, 1.0);
    let observed = tracker.overtakes();
    assert_eq!(observed.len(), 1, "exactly one overtake of the slow body");
    let observation = &observed[0];
    assert_eq!(observation.agent, AgentId::from_index(0));
    assert_eq!(observation.partner, AgentId::from_index(1));
    let (id, seconds) = only_band(observation);
    assert_eq!(id, ClearanceBandId::from_index(0));
    assert!(
        seconds > 0.0 && seconds < 6.0,
        "close band duration {} must be positive and below the full run",
        seconds
    );
}

#[test]
fn a_safe_overtake_records_the_interval_but_no_band_duration() {
    let tracker = run_two_circles(&close_band(), 80, 3.0, 2.0, 2.0, 1.0);
    let observed = tracker.overtakes();
    assert_eq!(observed.len(), 1);
    assert_eq!(only_band(&observed[0]).1, 0.0);
}

#[test]
fn nested_bands_accumulate_independently_and_monotonically() {
    let bands = vec![band(0, 0.3, true, None), band(1, 1.5, false, None)];
    let tracker = run_two_circles(&bands, 80, 3.0, 1.2, 2.0, 1.0);
    let observed = tracker.overtakes();
    assert_eq!(observed.len(), 1);
    let observation = &observed[0];
    assert_eq!(
        observation.bands.iter().map(|band| band.band).collect::<Vec<_>>(),
        vec![ClearanceBandId::from_index(0), ClearanceBandId::from_index(1)],
        "declaration order and stable ids are retained"
    );
    let inner = duration(observation.bands[0].ticks_inside);
    let outer = duration(observation.bands[1].ticks_inside);
    assert!(inner > 0.0, "the inner band is crossed");
    assert!(outer > inner, "the wider band accumulates at least as long: {outer} vs {inner}");
}

#[test]
fn a_band_whose_threshold_the_clearance_only_crosses_accumulates_a_sub_interval() {
    let bands = vec![band(0, 0.4, true, None), band(1, 0.6, false, None)];
    let tracker = run_two_circles(&bands, 80, 3.0, 1.2, 2.0, 1.0);
    let observed = tracker.overtakes();
    assert_eq!(observed.len(), 1);
    let observation = &observed[0];
    let crossed = duration(observation.bands[0].ticks_inside);
    let spanned = duration(observation.bands[1].ticks_inside);
    assert!(crossed > 0.0, "the crossed band accumulated a duration");
    assert!(
        crossed < spanned,
        "a boundary the clearance crosses mid-interval accumulates strictly \
         less than one it stays inside: {crossed} vs {spanned}"
    );
}

#[test]
fn an_abreast_convoy_is_not_an_overtake() {
    let tracker = run_two_circles(&close_band(), 40, 1.0, 1.2, 1.0, 1.0);
    assert!(tracker.overtakes().is_empty());
}

#[test]
fn the_mode_gate_excludes_a_band_that_names_no_present_mode() {
    let bands = vec![band(0, 0.5, true, Some(vec![bike()])), band(1, 1.0, false, None)];
    assert!(!band_applies(&bands[0], None, None));
    assert!(!band_applies(&bands[0], Some(car()), None));
    assert!(band_applies(&bands[1], None, None));
    assert!(band_applies(&bands[0], Some(bike()), None));
    assert!(band_applies(&bands[0], None, Some(bike())));
}

#[test]
fn the_report_order_is_the_pair_key_and_not_the_query_order() {
    let first = run_two_circles(&close_band(), 80, 3.0, 1.2, 2.0, 1.0);
    let second = run_two_circles(&close_band(), 80, 3.0, 1.2, 2.0, 1.0);
    assert_eq!(first.overtakes(), second.overtakes());
    let observation = &first.overtakes()[0];
    assert!(observation.start_tick <= observation.end_tick);
}

#[test]
fn the_minimum_records_its_time_and_relative_speed() {
    let tracker = run_two_circles(&close_band(), 80, 3.0, 1.2, 2.0, 1.0);
    let observation = &tracker.overtakes()[0];
    let min = f(observation.min_clearance_m);
    assert!((min - 0.2).abs() < 1e-9, "the least clearance is the exact 0.2 m, got {}", min);
    let at = f(observation.min_clearance_time_s);
    assert!(at > 0.0 && at <= 80.0 * DT + 1e-9, "the minimum's time lies inside the run: {}", at);
    let relative = f(observation.relative_speed_mps);
    assert!(
        (relative - 1.0).abs() < 1e-9,
        "the relative speed at the minimum is the 1.0 m/s difference, got {}",
        relative
    );
}

#[test]
fn a_violating_band_is_reported_only_when_the_minimum_falls_below_it() {
    let observed = run_two_circles(&close_band(), 80, 3.0, 1.2, 2.0, 1.0);
    assert_eq!(
        observed.overtakes()[0].violating_bands(),
        vec![ClearanceBandId::from_index(0)],
        "0.2 m clear of a 0.5 m violating band is a violation"
    );
    let safe = run_two_circles(&close_band(), 80, 3.0, 2.0, 2.0, 1.0);
    assert!(safe.overtakes()[0].violating_bands().is_empty(), "1 m clear of a 0.5 m band is not a violation");
    let study = vec![band(0, 0.5, false, None)];
    let labelled = run_two_circles(&study, 80, 3.0, 1.2, 2.0, 1.0);
    assert!(
        labelled.overtakes()[0].violating_bands().is_empty(),
        "a non-violating band defines a duration, not a violation"
    );
}

#[test]
fn the_minimum_is_symmetric_in_pair_order_while_the_roles_follow_the_speeds() {
    let pass = |zero_behind: bool| {
        let mut world = World::new();
        let (zero_x, one_x, zero_speed, one_speed) = if zero_behind { (0.0, 3.0, 2.0, 1.0) } else { (3.0, 0.0, 1.0, 2.0) };
        world.circle(zero_x, 1.0, zero_x, 0.0, 0.5, zero_speed);
        world.circle(one_x, 1.0, one_x, 1.2, 0.5, one_speed);
        let mut tracker = ClosePassTracker::new();
        for tick in 1..=80 {
            observe(&mut tracker, &mut world, &close_band(), &Vec::new(), tick);
        }
        tracker
    };
    let first = pass(true);
    let second = pass(false);
    assert_eq!(
        (first.overtakes()[0].agent, first.overtakes()[0].partner),
        (AgentId::from_index(0), AgentId::from_index(1))
    );
    assert_eq!(
        (second.overtakes()[0].agent, second.overtakes()[0].partner),
        (AgentId::from_index(1), AgentId::from_index(0))
    );
    assert_eq!(
        first.overtakes()[0].min_clearance_m,
        second.overtakes()[0].min_clearance_m,
        "the minimum does not depend on the pair query order"
    );
}

#[test]
fn a_boundary_crossing_is_evidence_on_the_observation() {
    let run = |crossing: bool| {
        let mut world = World::new();
        world.circle(0.0, 1.0, 0.0, 0.0, 0.5, 2.0);
        world.circle(3.0, 1.0, 3.0, 1.2, 0.5, 1.0);
        let records = if crossing { vec![AgentId::from_index(0)] } else { Vec::new() };
        let mut tracker = ClosePassTracker::new();
        for tick in 1..=80 {
            observe(&mut tracker, &mut world, &close_band(), &records, tick);
        }
        tracker
    };
    assert!(run(true).overtakes()[0].crossed_boundary, "a participant's boundary crossing is recorded");
    assert!(!run(false).overtakes()[0].crossed_boundary, "no crossing records no evidence");
}

fn two_circles() -> World {
    let mut world = World::new();
    world.circle(0.0, 1.0, 0.0, 0.0, 0.5, 2.0);
    world.circle(3.0, 1.0, 3.0, 1.2, 0.5, 1.0);
    world
}

#[test]
fn an_aborted_pass_closes_exactly_one_observation() {
    let mut world = two_circles();
    let mut tracker = ClosePassTracker::new();
    for tick in 1..=30 {
        observe(&mut tracker, &mut world, &close_band(), &Vec::new(), tick);
    }
    assert!(tracker.overtakes().is_empty(), "the interval is still open while the pair is alongside");
    world.bodies[0].speed_mps = 0.2;
    for tick in 31..=80 {
        observe(&mut tracker, &mut world, &close_band(), &Vec::new(), tick);
    }
    let observed = tracker.overtakes();
    assert_eq!(observed.len(), 1, "one observation closes for the aborted pass");
    assert!(observed[0].end_tick < 80, "the abort closed it before the end");
}

#[test]
fn a_despawn_closes_exactly_one_observation() {
    let mut world = two_circles();
    let mut tracker = ClosePassTracker::new();
    for tick in 1..=30 {
        observe(&mut tracker, &mut world, &close_band(), &Vec::new(), tick);
    }
    world.bodies[1].alive = false;
    for tick in 31..=60 {
        observe(&mut tracker, &mut world, &close_band(), &Vec::new(), tick);
    }
    assert_eq!(tracker.overtakes().len(), 1, "a participant's despawn closes exactly one observation");
}

#[test]
fn close_open_closes_a_still_open_interval_once() {
    let mut world = two_circles();
    let mut tracker = ClosePassTracker::new();
    for tick in 1..=30 {
        observe(&mut tracker, &mut world, &close_band(), &Vec::new(), tick);
    }
    tracker.close_open();
    let observed = tracker.overtakes();
    assert_eq!(observed.len(), 1, "the run end closes the open interval");
    assert_eq!(observed[0].end_tick, 30, "it closes at its last observed tick");
    tracker.close_open();
    assert_eq!(tracker.overtakes().len(), 1, "a second run-end close adds no second observation");
}

#[test]
fn a_body_on_the_opposing_traversal_records_its_evidence() {
    let mut world = World::new();
    world.rider(car(), 3.0, -1.0, 3.0, 0.0, 0.5, 2.0);
    world.rider(car(), 0.0, -1.0, 0.0, 1.2, 0.5, 1.0);
    let mut tracker = ClosePassTracker::new();
    for tick in 1..=80 {
        observe(&mut tracker, &mut world, &close_band(), &Vec::new(), tick);
    }
    let observed = tracker.overtakes();
    assert_eq!(observed.len(), 1, "the reverse-travelling pair still passes");
    let observation = &observed[0];
    assert_eq!(observation.agent, AgentId::from_index(0));
    assert_eq!(observation.facility, Some(FacilityId::from_index(0)));
    assert_eq!(observation.side, Some(PassSide::Left));
    assert!(observation.entered_opposing, "travelling against the nominal direction is an opposing traversal");
}

#[test]
fn the_canonical_pair_names_the_lower_id_first() {
    let low = AgentId::from_index(1);
    let high = AgentId::from_index(4);
    let key = canonical_pair(high, low);
    assert_eq!((key.first, key.second), (low, high));
    assert_eq!(canonical_pair(low, high), key);
}

#[test]
fn equal_speeds_name_no_passing_agent() {
    let world = two_circles();
    let mut fast = world.passing_body(0);
    let slow = world.passing_body(1);
    assert_eq!(passing_pair(&fast, &slow), Some((AgentId::from_index(0), AgentId::from_index(1))));
    assert_eq!(passing_pair(&slow, &fast), Some((AgentId::from_index(0), AgentId::from_index(1))));
    fast.speed_mps = slow.speed_mps;
    assert_eq!(passing_pair(&fast, &slow), None);
}

#[test]
fn participating_bands_keep_declaration_order_and_drop_bands_naming_other_modes() {
    let bands = vec![
        band(0, 0.5, true, Some(vec![bike()])),
        band(1, 1.0, false, None),
        band(2, 1.5, true, Some(vec![car()])),
    ];
    let tallies = participating_bands(&bands, Some(car()), None);
    assert_eq!(
        tallies.iter().map(|t| (t.band, t.ticks_inside)).collect::<Vec<_>>(),
        vec![(ClearanceBandId::from_index(1), 0), (ClearanceBandId::from_index(2), 0)]
    );
}

#[test]
fn a_close_pass_record_needs_a_facility_a_side_and_a_pass_capability() {
    let mut world = World::new();
    world.rider(car(), 0.0, 1.0, 0.0, 0.0, 0.5, 2.0);
    world.rider(car(), 3.0, 1.0, 3.0, 1.2, 0.5, 1.0);
    let mut tracker = ClosePassTracker::new();
    for tick in 1..=80 {
        observe(&mut tracker, &mut world, &close_band(), &Vec::new(), tick);
    }
    let observation = &tracker.overtakes()[0];
    assert_eq!(observation.side, Some(PassSide::Right));
    let durations = vec![ClosePassBand { band: ClearanceBandId::from_index(0), duration_s: m(0.4) }];
    let overtaking = vec![TacticalCapability::Follow, TacticalCapability::Overtake];
    let following = vec![TacticalCapability::Follow, TacticalCapability::Stop];
    assert_eq!(close_pass_event(observation, Some(&following), durations.clone()), None);
    assert_eq!(close_pass_event(observation, None, durations.clone()), None);
    match close_pass_event(observation, Some(&overtaking), durations.clone()) {
        Some(Event::ClosePass { agent, partner, facility, side, bands, violating_bands, .. }) => {
            assert_eq!((agent, partner), (AgentId::from_index(0), AgentId::from_index(1)));
            assert_eq!(facility, FacilityId::from_index(0));
            assert_eq!(side, PassSide::Right);
            assert_eq!(bands, durations);
            assert_eq!(violating_bands, vec![ClearanceBandId::from_index(0)]);
        }
        other => panic!("expected a close pass record, got {other:?}"),
    }
    let plain = run_two_circles(&close_band(), 80, 3.0, 1.2, 2.0, 1.0);
    assert_eq!(close_pass_event(&plain.overtakes()[0], Some(&overtaking), durations), None);
}
