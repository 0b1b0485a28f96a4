use hekate_sim::articulated::{agent_segments, limit_event, HitchLimitTransition, HitchMonitor};
use hekate_sim::event::Event;
use hekate_sim::ids::AgentId;
use hekate_sim::measure::Measure;

fn m(value: f64) -> Measure {
    Measure::from_bits(value.to_bits())
}

fn wrap_pi(angle_rad: f64) -> f64 {
    let mut wrapped = (angle_rad + std::f64::consts::PI) % std::f64::consts::TAU;
    if wrapped <= 0.0 {
        wrapped += std::f64::consts::TAU;
    }
    wrapped - std::f64::consts::PI
}

/// A tractor (6 m) towing one 13.6 m semitrailer hitched 1.2 m behind its
/// front edge, integrated with the single-axle kingpin trailer model; every
/// tick's hitch angle is handed to the monitor.
struct Chain {
    lead: (f64, f64, f64),
    trailer_heading_rad: f64,
    monitor: HitchMonitor,
}

impl Chain {
    const LEAD_LENGTH_M: f64 = 6.0;
    const ARM_M: f64 = 13.6 - 1.2;

    fn rear(position: (f64, f64), heading_rad: f64) -> (f64, f64) {
        (
            position.0 - heading_rad.cos() * Self::LEAD_LENGTH_M * 0.5,
            position.1 - heading_rad.sin() * Self::LEAD_LENGTH_M * 0.5,
        )
    }

    fn advance(&mut self, position: (f64, f64), heading_rad: f64, dt: f64) -> Vec<HitchLimitTransition> {
        let previous = Self::rear((self.lead.0, self.lead.1), self.lead.2);
        let now = Self::rear(position, heading_rad);
        let velocity = ((now.0 - previous.0) / dt, (now.1 - previous.1) / dt);
        let perp = (-self.trailer_heading_rad.sin(), self.trailer_heading_rad.cos());
        let rate = (velocity.0 * perp.0 + velocity.1 * perp.1) / Self::ARM_M;
        self.trailer_heading_rad += rate * dt;
        self.lead = (position.0, position.1, heading_rad);
        let angle = wrap_pi(heading_rad - self.trailer_heading_rad).abs();
        self.monitor.check(&vec![m(angle)])
    }
}

#[test]
fn a_hitch_beyond_the_limit_reports_one_rising_and_one_falling_edge() {
    let mut chain = Chain {
        lead: (0.0, 0.0, 0.0),
        trailer_heading_rad: 0.0,
        monitor: HitchMonitor::new(1, m(0.01)),
    };
    let dt = 0.05;
    let mut lead_position = (0.4, 0.0);
    let lead_heading_rad = 1.2;
    let transitions = chain.advance(lead_position, lead_heading_rad, dt);
    assert!(
        transitions.iter().any(|t| t.exceeding),
        "a hard turn must trip the limit: {transitions:?}"
    );
    let mut saw_falling = false;
    for _ in 0..2000 {
        lead_position.0 += lead_heading_rad.cos() * 8.0 * dt;
        lead_position.1 += lead_heading_rad.sin() * 8.0 * dt;
        let transitions = chain.advance(lead_position, lead_heading_rad, dt);
        if transitions.iter().any(|t| !t.exceeding) {
            saw_falling = true;
            break;
        }
    }
    assert!(saw_falling, "the hitch angle never recovered inside the limit");
}

#[test]
fn only_hitches_whose_state_changes_report_an_edge() {
    let mut monitor = HitchMonitor::new(3, m(0.5));
    assert_eq!(monitor.hitch_count(), 3);
    let edges = monitor.check(&vec![m(0.2), m(0.7), m(0.5)]);
    assert_eq!(
        edges,
        vec![HitchLimitTransition { hitch_index: 2, angle_rad: m(0.7), limit_rad: m(0.5), exceeding: true }]
    );
    assert!(monitor.check(&vec![m(0.3), m(0.9), m(0.1)]).is_empty());
    let edges = monitor.check(&vec![m(0.6), m(0.4), m(0.1)]);
    assert_eq!(
        edges,
        vec![
            HitchLimitTransition { hitch_index: 1, angle_rad: m(0.6), limit_rad: m(0.5), exceeding: true },
            HitchLimitTransition { hitch_index: 2, angle_rad: m(0.4), limit_rad: m(0.5), exceeding: false },
        ]
    );
    // A NaN angle compares above nothing, so it reads as inside the limit.
    let edges = monitor.check(&vec![m(f64::NAN), m(0.4), m(0.1)]);
    assert_eq!(edges.len(), 1);
    assert!(!edges[0].exceeding);
}

#[test]
fn a_hitch_edge_becomes_its_limit_record() {
    let edge = HitchLimitTransition { hitch_index: 1, angle_rad: m(1.0), limit_rad: m(0.9), exceeding: true };
    assert_eq!(
        limit_event(AgentId::from_index(4), &edge),
        Event::ArticulationLimitExceeded {
            agent: AgentId::from_index(4),
            hitch_index: 1,
            angle_rad: m(1.0),
            limit_rad: m(0.9),
            exceeding: true,
        }
    );
}

#[test]
fn a_chain_numbers_its_segments_lead_first() {
    assert_eq!(agent_segments('L', &vec![]), vec![(0, 'L')]);
    assert_eq!(agent_segments('L', &vec!['a', 'b']), vec![(0, 'L'), (1, 'a'), (2, 'b')]);
}
