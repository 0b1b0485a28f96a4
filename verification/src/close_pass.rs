//! Close-pass tracking: overtaking-interval detection and clearance-band
//! tallies.
//!
//! Two bodies share a reference when they travel the same compiled path in the
//! same travel direction. An overtaking interval is a maximal run of
//! consecutive observed ticks on which a candidate pair is alongside on that
//! reference, and it is an actual overtake only when one body is strictly
//! faster along the reference than the other: the faster is the passing agent
//! and the other the passed body, so an abreast convoy never opens one.
//!
//! The tracker owns the interval lifecycle. An interval opens on the first
//! alongside tick of a passing pair, is extended on every later alongside
//! tick, and closes exactly once: on the first observed tick the pair is no
//! longer alongside (a completed or aborted pass, or a participant's despawn),
//! or at run end through [`ClosePassTracker::close_open`]. Each close records
//! exactly one [`OvertakeRecord`], in `(end tick, canonical pair)` order.
//!
//! Every observed tick updates an interval's least clearance (a strictly lower
//! clearance becomes the minimum, with that tick's time and the passing body's
//! speed minus the passed body's), counts the tick for every participating
//! band whose threshold the clearance is at or below, and latches the first
//! shared facility and pass side the pair admits with the boundary-crossing
//! and opposing-traversal evidence. Which pairs are alongside, their swept
//! clearance and their speeds are measured from the integrated state outside
//! the library and arrive as [`AlongsideReading`]s.

use vstd::prelude::*;
use vstd::multiset::Multiset;

use crate::event::{ClosePassBand, Event};
use crate::ids::{AgentId, ClearanceBandId, FacilityId, ModeTemplateId, NominalDirection, TacticalCapability};
use crate::measure::{bits_ge_zero, bits_le, bits_lt, bits_lt_zero, bits_nan, Measure, POSITIVE_INFINITY_BITS};
use crate::safety::PairKey;
use crate::stage::PassSide;

verus! {

/// The canonical key of a pair: the lower agent id first.
pub open spec fn canonical_of(first: AgentId, second: AgentId) -> PairKey {
    if first.value() <= second.value() {
        PairKey { first, second }
    } else {
        PairKey { first: second, second: first }
    }
}

/// The canonical `(AgentId, AgentId)` key of a pair: the lower id first.
pub fn canonical_pair(first: AgentId, second: AgentId) -> (r: PairKey)
    ensures
        r == canonical_of(first, second),
{
    if first.get() <= second.get() {
        PairKey { first, second }
    } else {
        PairKey { first: second, second: first }
    }
}

/// A compiled clearance band.
#[derive(Debug, Clone, PartialEq, Eq)]
pub struct ClearanceBand {
    /// The band's stable compiled identifier.
    pub id: ClearanceBandId,
    /// The band's signed surface clearance threshold in metres.
    pub threshold_m: Measure,
    /// Whether a pass below the threshold is a violation in this scenario.
    pub violation: bool,
    /// The mode templates the band names, or `None` for a band that applies
    /// to every pair.
    pub applies_to_modes: Option<Vec<ModeTemplateId>>,
}

/// Whether a present mode template is named by a band's mode list.
pub open spec fn names_mode(modes: Seq<ModeTemplateId>, mode: Option<ModeTemplateId>) -> bool {
    match mode {
        Some(m) => modes.contains(m),
        None => false,
    }
}

/// Whether a band participates for a pair with the given mode templates.
pub open spec fn band_applies_to(band: ClearanceBand, first: Option<ModeTemplateId>, second: Option<ModeTemplateId>) -> bool {
    match band.applies_to_modes {
        None => true,
        Some(modes) => names_mode(modes@, first) || names_mode(modes@, second),
    }
}

/// Whether a mode list names a present mode template.
fn lists_mode(modes: &Vec<ModeTemplateId>, mode: Option<ModeTemplateId>) -> (r: bool)
    ensures
        r == names_mode(modes@, mode),
{
    match mode {
        Some(m) => {
            let mut i: usize = 0;
            while i < modes.len()
                invariant
                    i <= modes@.len(),
                    mode == Some(m),
                    forall|j: int| 0 <= j < i ==> modes@[j] != m,
                decreases modes.len() - i,
            {
                if modes[i] == m {
                    assert(modes@[i as int] == m);
                    return true;
                }
                i = i + 1;
            }
            false
        },
        None => false,
    }
}

/// Whether a compiled band participates for a pair with the given mode
/// templates, one of which may be absent.
///
/// A band declaring no `applies_to_modes` applies to every pair; one that names
/// modes applies only when a body's compiled mode template is named, so a body
/// with no mode template never matches a band that names modes.
pub fn band_applies(band: &ClearanceBand, first: Option<ModeTemplateId>, second: Option<ModeTemplateId>) -> (r: bool)
    ensures
        r == band_applies_to(*band, first, second),
{
    match &band.applies_to_modes {
        None => true,
        Some(modes) => lists_mode(modes, first) || lists_mode(modes, second),
    }
}

/// Whether a body traverses against its facility's authored nominal direction.
pub open spec fn opposes_nominal_of(nominal: Option<NominalDirection>, direction: Measure) -> bool {
    match nominal {
        Some(NominalDirection::Forward) => bits_lt_zero(direction.bits),
        Some(NominalDirection::Reverse) => bits_ge_zero(direction.bits),
        _ => false,
    }
}

/// Whether one body traverses against its facility's authored nominal
/// direction: a `Forward` facility makes a reverse-travelling body an
/// opposing traversal, a `Reverse` facility a forward-travelling one, and an
/// `Either` facility none. A body with no compiled facility opposes none.
pub fn body_opposes_nominal(nominal: Option<NominalDirection>, direction: Measure) -> (r: bool)
    ensures
        r == opposes_nominal_of(nominal, direction),
{
    match nominal {
        Some(NominalDirection::Forward) => direction.is_negative(),
        Some(NominalDirection::Reverse) => direction.is_at_least_zero(),
        _ => false,
    }
}

/// One participating band's tally within one overtaking interval.
#[derive(Debug, Clone, Copy, PartialEq, Eq, Hash, Structural)]
pub struct BandTally {
    /// The band's stable compiled identifier.
    pub band: ClearanceBandId,
    /// The band's threshold in metres.
    pub threshold_m: Measure,
    /// Whether a pass below the threshold is a violation.
    pub violation: bool,
    /// Observed ticks the pair's clearance was at or below the threshold.
    pub ticks_inside: u64,
}

/// One body's facts on the shared reference for one observed tick.
#[derive(Debug, Clone, Copy, PartialEq, Eq, Hash, Structural)]
pub struct PassingBody {
    /// The body's stable identifier.
    pub agent: AgentId,
    /// The mode template the body was spawned from, if any.
    pub mode_template: Option<ModeTemplateId>,
    /// The compiled facility the body rides, if it carries route state.
    pub facility: Option<FacilityId>,
    /// The nominal direction of that facility, when the scenario compiles it.
    pub nominal_direction: Option<NominalDirection>,
    /// Travel direction sign along the path.
    pub direction: Measure,
    /// Speed along the reference in the travel direction, in metres per
    /// second.
    pub speed_mps: Measure,
    /// Signed lateral offset on the facility's reference, positive to the
    /// left of the body's own travel direction, when it carries route state.
    pub lateral_m: Option<Measure>,
}

/// The passing agent and passed body of an alongside pair, or `None` when
/// neither is strictly faster along the reference.
pub open spec fn passing_pair_of(first: PassingBody, second: PassingBody) -> Option<(AgentId, AgentId)> {
    if bits_lt(second.speed_mps.bits, first.speed_mps.bits) {
        Some((first.agent, second.agent))
    } else if bits_lt(first.speed_mps.bits, second.speed_mps.bits) {
        Some((second.agent, first.agent))
    } else {
        None
    }
}

/// The passing agent and the passed body of an alongside pair: the body with
/// the greater speed along the shared reference passes, and equal speeds are
/// not an overtake.
pub fn passing_pair(first: &PassingBody, second: &PassingBody) -> (r: Option<(AgentId, AgentId)>)
    ensures
        r == passing_pair_of(*first, *second),
{
    if second.speed_mps.less_than(first.speed_mps) {
        Some((first.agent, second.agent))
    } else if first.speed_mps.less_than(second.speed_mps) {
        Some((second.agent, first.agent))
    } else {
        None
    }
}

/// One alongside candidate pair's measured facts for one observed tick.
#[derive(Debug, Clone, Copy, PartialEq, Eq, Hash, Structural)]
pub struct AlongsideReading {
    /// The body earlier along the reference.
    pub first: PassingBody,
    /// The body later along the reference.
    pub second: PassingBody,
    /// The pair's least swept surface clearance over the tick, in metres.
    pub clearance_m: Measure,
    /// The tick's simulated time in seconds.
    pub time_s: Measure,
    /// The first body's speed minus the second's, in metres per second.
    pub first_minus_second_mps: Measure,
    /// The second body's speed minus the first's, in metres per second.
    pub second_minus_first_mps: Measure,
}

/// One overtaking interval, open or closed.
#[derive(Debug, Clone, PartialEq, Eq)]
pub struct OvertakeRecord {
    /// The passing agent.
    pub agent: AgentId,
    /// The passed body.
    pub partner: AgentId,
    /// The shared facility, latched once both bodies ride one.
    pub facility: Option<FacilityId>,
    /// The side the pass claims, latched in the passing agent's frame.
    pub side: Option<PassSide>,
    /// First observed tick the pair was alongside.
    pub start_tick: u64,
    /// Last observed tick the pair was alongside.
    pub end_tick: u64,
    /// Least clearance observed over the interval, in metres.
    pub min_clearance_m: Measure,
    /// Simulated time of that minimum, in seconds.
    pub min_clearance_time_s: Measure,
    /// Relative speed at that minimum: passing minus passed, in m/s.
    pub relative_speed_mps: Measure,
    /// The participating bands in declaration order with their tallies.
    pub bands: Vec<BandTally>,
    /// Whether either participant crossed a facility boundary.
    pub crossed_boundary: bool,
    /// Whether either participant traversed against its facility's nominal
    /// direction.
    pub entered_opposing: bool,
}

/// The mathematical view of an overtaking interval.
pub struct IntervalView {
    pub agent: AgentId,
    pub partner: AgentId,
    pub facility: Option<FacilityId>,
    pub side: Option<PassSide>,
    pub start_tick: u64,
    pub end_tick: u64,
    pub min_clearance_m: Measure,
    pub min_clearance_time_s: Measure,
    pub relative_speed_mps: Measure,
    pub bands: Seq<BandTally>,
    pub crossed_boundary: bool,
    pub entered_opposing: bool,
}

impl View for OvertakeRecord {
    type V = IntervalView;

    open spec fn view(&self) -> IntervalView {
        IntervalView {
            agent: self.agent,
            partner: self.partner,
            facility: self.facility,
            side: self.side,
            start_tick: self.start_tick,
            end_tick: self.end_tick,
            min_clearance_m: self.min_clearance_m,
            min_clearance_time_s: self.min_clearance_time_s,
            relative_speed_mps: self.relative_speed_mps,
            bands: self.bands@,
            crossed_boundary: self.crossed_boundary,
            entered_opposing: self.entered_opposing,
        }
    }
}

/// The canonical key of an interval's pair.
pub open spec fn interval_key(r: IntervalView) -> PairKey {
    canonical_of(r.agent, r.partner)
}

/// The canonical key of a reading's pair.
pub open spec fn reading_key(c: AlongsideReading) -> PairKey {
    canonical_of(c.first.agent, c.second.agent)
}

/// The participating bands of a pair among the first `n` scenario bands, in
/// declaration order, with empty tallies.
pub open spec fn participating_of(bands: Seq<ClearanceBand>, first: Option<ModeTemplateId>, second: Option<ModeTemplateId>, n: int) -> Seq<BandTally>
    decreases n,
{
    if n <= 0 {
        Seq::<BandTally>::empty()
    } else {
        let rest = participating_of(bands, first, second, n - 1);
        let band = bands[n - 1];
        if band_applies_to(band, first, second) {
            rest.push(BandTally {
                band: band.id,
                threshold_m: band.threshold_m,
                violation: band.violation,
                ticks_inside: 0,
            })
        } else {
            rest
        }
    }
}

/// A band's tally after one observed tick with the given clearance: the
/// tick counts when the clearance is at or below the band's threshold.
pub open spec fn tally_after(t: BandTally, clearance_m: Measure) -> BandTally {
    if bits_le(clearance_m.bits, t.threshold_m.bits) {
        BandTally { ticks_inside: (t.ticks_inside + 1) as u64, ..t }
    } else {
        t
    }
}

/// Whether either participant of an interval crossed a facility boundary on
/// this tick.
pub open spec fn crossing_evidence(agent: AgentId, partner: AgentId, transitions: Seq<AgentId>) -> bool {
    transitions.contains(agent) || transitions.contains(partner)
}

/// The side a pass claims from the two bodies' lateral offsets, in the
/// passing agent's frame: left when the passing body lies further left than
/// the passed one.
pub open spec fn side_of(passing: Measure, passed: Measure) -> PassSide {
    if bits_lt(passed.bits, passing.bits) {
        PassSide::Left
    } else {
        PassSide::Right
    }
}

/// The side an interval latches from a reading, when it has none yet and both
/// bodies carry a lateral offset.
pub open spec fn latched_side(iv: IntervalView, c: AlongsideReading) -> Option<PassSide> {
    match (iv.side, c.first.lateral_m, c.second.lateral_m) {
        (None, Some(first), Some(second)) => Some(
            if iv.agent == c.first.agent {
                side_of(first, second)
            } else {
                side_of(second, first)
            },
        ),
        _ => iv.side,
    }
}

/// The facility an interval latches from a reading, when it has none yet and
/// both bodies ride the same one.
pub open spec fn latched_facility(iv: IntervalView, c: AlongsideReading) -> Option<FacilityId> {
    if iv.facility.is_none() && c.first.facility.is_some() && c.first.facility == c.second.facility {
        c.first.facility
    } else {
        iv.facility
    }
}

/// An interval after one observed alongside tick: the tick extends it, a
/// strictly lower clearance becomes its minimum with that tick's time and the
/// passing-minus-passed speed, each band whose threshold the clearance is at or
/// below gains the tick, and the first facility and side the pair admits are
/// latched with the evidence flags.
pub open spec fn observed(iv: IntervalView, c: AlongsideReading, tick: u64, transitions: Seq<AgentId>) -> IntervalView {
    let lowers = bits_lt(c.clearance_m.bits, iv.min_clearance_m.bits);
    IntervalView {
        end_tick: tick,
        min_clearance_m: if lowers { c.clearance_m } else { iv.min_clearance_m },
        min_clearance_time_s: if lowers { c.time_s } else { iv.min_clearance_time_s },
        relative_speed_mps: if lowers {
            if iv.agent == c.first.agent { c.first_minus_second_mps } else { c.second_minus_first_mps }
        } else {
            iv.relative_speed_mps
        },
        bands: Seq::new(iv.bands.len(), |i: int| tally_after(iv.bands[i], c.clearance_m)),
        facility: latched_facility(iv, c),
        side: latched_side(iv, c),
        crossed_boundary: iv.crossed_boundary || crossing_evidence(iv.agent, iv.partner, transitions),
        entered_opposing: iv.entered_opposing || opposes_nominal_of(c.first.nominal_direction, c.first.direction)
            || opposes_nominal_of(c.second.nominal_direction, c.second.direction),
        ..iv
    }
}

/// A freshly opened interval of a passing pair, before its first observed
/// tick: no minimum yet (positive infinity) and empty tallies.
pub open spec fn fresh_interval(agent: AgentId, partner: AgentId, tick: u64, bands: Seq<BandTally>) -> IntervalView {
    IntervalView {
        agent,
        partner,
        facility: None,
        side: None,
        start_tick: tick,
        end_tick: tick,
        min_clearance_m: Measure { bits: POSITIVE_INFINITY_BITS },
        min_clearance_time_s: Measure { bits: 0 },
        relative_speed_mps: Measure { bits: 0 },
        bands,
        crossed_boundary: false,
        entered_opposing: false,
    }
}

/// The participating bands of a pair, in declaration order, each with an
/// empty tally.
pub fn participating_bands(bands: &Vec<ClearanceBand>, first: Option<ModeTemplateId>, second: Option<ModeTemplateId>) -> (r: Vec<BandTally>)
    ensures
        r@ == participating_of(bands@, first, second, bands@.len() as int),
        forall|j: int| 0 <= j < r@.len() ==> (#[trigger] r@[j]).ticks_inside == 0,
{
    let mut out: Vec<BandTally> = Vec::new();
    let mut i: usize = 0;
    while i < bands.len()
        invariant
            i <= bands@.len(),
            out@ == participating_of(bands@, first, second, i as int),
            forall|j: int| 0 <= j < out@.len() ==> (#[trigger] out@[j]).ticks_inside == 0,
        decreases bands.len() - i,
    {
        if band_applies(&bands[i], first, second) {
            out.push(BandTally {
                band: bands[i].id,
                threshold_m: bands[i].threshold_m,
                violation: bands[i].violation,
                ticks_inside: 0,
            });
        }
        i = i + 1;
    }
    out
}

/// Whether an agent names a recorded facility transition.
fn lists_agent(agents: &Vec<AgentId>, agent: AgentId) -> (r: bool)
    ensures
        r == agents@.contains(agent),
{
    let mut i: usize = 0;
    while i < agents.len()
        invariant
            i <= agents@.len(),
            forall|j: int| 0 <= j < i ==> agents@[j] != agent,
        decreases agents.len() - i,
    {
        if agents[i] == agent {
            assert(agents@[i as int] == agent);
            return true;
        }
        i = i + 1;
    }
    false
}

/// Every tally of an interval counts no more ticks than the interval spans.
pub open spec fn tallies_bounded(iv: IntervalView) -> bool {
    &&& iv.start_tick <= iv.end_tick
    &&& forall|i: int| 0 <= i < iv.bands.len() ==> #[trigger] iv.bands[i].ticks_inside <= iv.end_tick - iv.start_tick + 1
}

/// Every tally of an interval counts only ticks before `tick`.
pub open spec fn tallies_before(iv: IntervalView, tick: u64) -> bool {
    &&& iv.start_tick <= tick
    &&& forall|i: int| 0 <= i < iv.bands.len() ==> #[trigger] iv.bands[i].ticks_inside <= tick - iv.start_tick
}

/// Record one observed alongside tick of an interval.
pub fn observe_interval(iv: &mut OvertakeRecord, c: &AlongsideReading, tick: u64, transitions: &Vec<AgentId>)
    requires
        tallies_before(old(iv)@, tick),
        tick < u64::MAX,
    ensures
        final(iv)@ == observed(old(iv)@, *c, tick, transitions@),
        tallies_bounded(final(iv)@),
{
    let first_passes = iv.agent == c.first.agent;
    if c.clearance_m.less_than(iv.min_clearance_m) {
        iv.min_clearance_m = c.clearance_m;
        iv.min_clearance_time_s = c.time_s;
        iv.relative_speed_mps = if first_passes {
            c.first_minus_second_mps
        } else {
            c.second_minus_first_mps
        };
    }
    let ghost before = iv.bands@;
    let ghost mid = iv@;
    let mut i: usize = 0;
    while i < iv.bands.len()
        invariant
            i <= iv.bands@.len(),
            iv@ == (IntervalView { bands: iv.bands@, ..mid }),
            iv.bands@.len() == before.len(),
            iv.start_tick == old(iv).start_tick,
            old(iv).start_tick <= tick < u64::MAX,
            forall|j: int| 0 <= j < before.len() ==> #[trigger] before[j].ticks_inside <= tick - old(iv).start_tick,
            forall|j: int| 0 <= j < i ==> iv.bands@[j] == tally_after(before[j], c.clearance_m),
            forall|j: int| i <= j < before.len() ==> iv.bands@[j] == before[j],
        decreases iv.bands.len() - i,
    {
        let tally = iv.bands[i];
        if c.clearance_m.at_most(tally.threshold_m) {
            assert(before[i as int].ticks_inside <= tick - old(iv).start_tick);
            iv.bands.set(i, BandTally { ticks_inside: tally.ticks_inside + 1, ..tally });
        }
        i = i + 1;
    }
    if iv.facility.is_none() && c.first.facility.is_some() && c.first.facility == c.second.facility {
        iv.facility = c.first.facility;
    }
    if iv.side.is_none() {
        match (c.first.lateral_m, c.second.lateral_m) {
            (Some(first), Some(second)) => {
                let (passing, passed) = if first_passes {
                    (first, second)
                } else {
                    (second, first)
                };
                iv.side = Some(
                    if passed.less_than(passing) {
                        PassSide::Left
                    } else {
                        PassSide::Right
                    },
                );
            },
            _ => {},
        }
    }
    if lists_agent(transitions, iv.agent) || lists_agent(transitions, iv.partner) {
        iv.crossed_boundary = true;
    }
    if body_opposes_nominal(c.first.nominal_direction, c.first.direction) || body_opposes_nominal(
        c.second.nominal_direction,
        c.second.direction,
    ) {
        iv.entered_opposing = true;
    }
    iv.end_tick = tick;
    proof {
        assert(iv.bands@ =~= Seq::new(before.len(), |j: int| tally_after(before[j], c.clearance_m)));
        assert forall|j: int| 0 <= j < iv.bands@.len() implies #[trigger] iv.bands@[j].ticks_inside <= iv.end_tick - iv.start_tick + 1 by {
            assert(before[j].ticks_inside <= tick - old(iv).start_tick);
        }
    }
}

/// A copy of an interval.
fn copy_record(r: &OvertakeRecord) -> (c: OvertakeRecord)
    ensures
        c@ == r@,
{
    let mut bands: Vec<BandTally> = Vec::new();
    let mut i: usize = 0;
    while i < r.bands.len()
        invariant
            i <= r.bands@.len(),
            bands@ == r.bands@.subrange(0, i as int),
        decreases r.bands.len() - i,
    {
        bands.push(r.bands[i]);
        proof {
            assert(bands@ =~= r.bands@.subrange(0, i + 1));
        }
        i = i + 1;
    }
    proof {
        assert(r.bands@.subrange(0, r.bands@.len() as int) =~= r.bands@);
    }
    OvertakeRecord {
        agent: r.agent,
        partner: r.partner,
        facility: r.facility,
        side: r.side,
        start_tick: r.start_tick,
        end_tick: r.end_tick,
        min_clearance_m: r.min_clearance_m,
        min_clearance_time_s: r.min_clearance_time_s,
        relative_speed_mps: r.relative_speed_mps,
        bands,
        crossed_boundary: r.crossed_boundary,
        entered_opposing: r.entered_opposing,
    }
}

/// The views of a list of records.
pub open spec fn views(s: Seq<OvertakeRecord>) -> Seq<IntervalView> {
    s.map_values(|r: OvertakeRecord| r@)
}

/// Strict order of canonical pair keys: by the lower id, then by the higher.
pub open spec fn pair_before(a: PairKey, b: PairKey) -> bool {
    a.first.value() < b.first.value() || (a.first.value() == b.first.value() && a.second.value()
        < b.second.value())
}

/// Whether one pair key strictly precedes another.
pub fn pair_precedes(a: &PairKey, b: &PairKey) -> (r: bool)
    ensures
        r == pair_before(*a, *b),
{
    a.first.get() < b.first.get() || (a.first.get() == b.first.get() && a.second.get()
        < b.second.get())
}

/// Intervals strictly ascending by canonical pair, so no pair repeats.
pub open spec fn ascending(s: Seq<IntervalView>) -> bool {
    forall|i: int, j: int|
        0 <= i < j < s.len() ==> pair_before(#[trigger] interval_key(s[i]), #[trigger] interval_key(s[j]))
}

/// Intervals in close order: ascending end tick, then ascending canonical
/// pair.
pub open spec fn in_close_order(s: Seq<IntervalView>) -> bool {
    forall|i: int, j: int|
        0 <= i < j < s.len() ==> #[trigger] s[i].end_tick < #[trigger] s[j].end_tick || (s[i].end_tick
            == s[j].end_tick && pair_before(interval_key(s[i]), interval_key(s[j])))
}

/// Whether an interval for a pair is among a list.
pub open spec fn has_open(open: Seq<IntervalView>, key: PairKey) -> bool {
    exists|i: int| 0 <= i < open.len() && #[trigger] interval_key(open[i]) == key
}

/// The interval of a pair among a list.
pub open spec fn open_of(open: Seq<IntervalView>, key: PairKey) -> IntervalView {
    open[choose|i: int| 0 <= i < open.len() && #[trigger] interval_key(open[i]) == key]
}

/// Whether some reading of a tick names a pair.
pub open spec fn read_pair(readings: Seq<AlongsideReading>, key: PairKey) -> bool {
    exists|k: int| 0 <= k < readings.len() && #[trigger] reading_key(readings[k]) == key
}

/// Whether no two readings of a tick name the same pair.
pub open spec fn readings_distinct(readings: Seq<AlongsideReading>) -> bool {
    forall|k: int, l: int|
        0 <= k < readings.len() && 0 <= l < readings.len() && k != l ==> reading_key(
            #[trigger] readings[k],
        ) != reading_key(#[trigger] readings[l])
}

/// What one reading leaves open for its pair: the pair's open interval
/// extended by the reading, a fresh interval of a passing pair observed once,
/// or nothing for a pair that neither is open nor passes.
pub open spec fn reading_outcome(
    open: Seq<IntervalView>,
    c: AlongsideReading,
    bands: Seq<ClearanceBand>,
    transitions: Seq<AgentId>,
    tick: u64,
) -> Option<IntervalView> {
    if has_open(open, reading_key(c)) {
        Some(observed(open_of(open, reading_key(c)), c, tick, transitions))
    } else {
        match passing_pair_of(c.first, c.second) {
            Some(pp) => Some(
                observed(
                    fresh_interval(
                        pp.0,
                        pp.1,
                        tick,
                        participating_of(bands, c.first.mode_template, c.second.mode_template, bands.len() as int),
                    ),
                    c,
                    tick,
                    transitions,
                ),
            ),
            None => None,
        }
    }
}

/// Whether an interval is the outcome some reading of a tick leaves.
pub open spec fn left_by_readings(
    open: Seq<IntervalView>,
    readings: Seq<AlongsideReading>,
    bands: Seq<ClearanceBand>,
    transitions: Seq<AgentId>,
    tick: u64,
    iv: IntervalView,
) -> bool {
    exists|k: int|
        0 <= k < readings.len() && #[trigger] reading_outcome(open, readings[k], bands, transitions, tick) == Some(iv)
}

/// The position of the reading that names a pair.
pub open spec fn reading_index(readings: Seq<AlongsideReading>, key: PairKey) -> int {
    choose|k: int| 0 <= k < readings.len() && #[trigger] reading_key(readings[k]) == key
}

/// An interval seen on `tick`, with tallies its span bounds.
pub open spec fn current(iv: IntervalView, tick: u64) -> bool {
    iv.end_tick == tick && tallies_bounded(iv)
}

/// Whether an interval opened on this tick is the outcome of a reading whose
/// pair had no open interval.
pub open spec fn opened_by(
    open: Seq<IntervalView>,
    readings: Seq<AlongsideReading>,
    bands: Seq<ClearanceBand>,
    transitions: Seq<AgentId>,
    tick: u64,
    k: int,
    iv: IntervalView,
) -> bool {
    exists|l: int|
        0 <= l < k && !has_open(open, reading_key(readings[l])) && #[trigger] reading_outcome(
            open,
            readings[l],
            bands,
            transitions,
            tick,
        ) == Some(iv)
}

/// Whether some reading before position `k` names a pair.
pub open spec fn read_before(readings: Seq<AlongsideReading>, k: int, key: PairKey) -> bool {
    exists|l: int| 0 <= l < k && #[trigger] reading_key(readings[l]) == key
}

/// The canonical key does not depend on the order the pair is named in.
proof fn lemma_canonical_symmetric(a: AgentId, b: AgentId)
    ensures
        canonical_of(a, b) == canonical_of(b, a),
{
    if a.value() == b.value() {
        AgentId::lemma_value_identifies(a, b);
    }
}

/// The pair order is a strict total order on keys.
proof fn lemma_pair_order(a: PairKey, b: PairKey)
    ensures
        pair_before(a, b) || pair_before(b, a) || a == b,
        !(pair_before(a, b) && pair_before(b, a)),
        !pair_before(a, a),
{
    if a.first.value() == b.first.value() && a.second.value() == b.second.value() {
        AgentId::lemma_value_identifies(a.first, b.first);
        AgentId::lemma_value_identifies(a.second, b.second);
    }
}

/// In an ascending list, the interval of a pair is the one at its position.
proof fn lemma_open_of_unique(s: Seq<IntervalView>, i: int)
    requires
        ascending(s),
        0 <= i < s.len(),
    ensures
        has_open(s, interval_key(s[i])),
        open_of(s, interval_key(s[i])) == s[i],
{
    let key = interval_key(s[i]);
    assert(has_open(s, key));
    let j = choose|j: int| 0 <= j < s.len() && #[trigger] interval_key(s[j]) == key;
    lemma_pair_order(key, key);
    if j < i {
        assert(pair_before(interval_key(s[j]), interval_key(s[i])));
    } else if i < j {
        assert(pair_before(interval_key(s[i]), interval_key(s[j])));
    }
}

/// Among distinct readings, the reading that names a pair is the one at its
/// position.
proof fn lemma_reading_index_unique(readings: Seq<AlongsideReading>, k: int)
    requires
        readings_distinct(readings),
        0 <= k < readings.len(),
    ensures
        reading_index(readings, reading_key(readings[k])) == k,
{
    let key = reading_key(readings[k]);
    assert(reading_key(readings[k]) == key);
    let l = reading_index(readings, key);
    if l != k {
        assert(reading_key(readings[l]) != reading_key(readings[k]));
    }
}

/// The interval a reading leaves names the reading's pair.
proof fn lemma_outcome_key(
    open: Seq<IntervalView>,
    c: AlongsideReading,
    bands: Seq<ClearanceBand>,
    transitions: Seq<AgentId>,
    tick: u64,
)
    requires
        reading_outcome(open, c, bands, transitions, tick) is Some,
    ensures
        interval_key(reading_outcome(open, c, bands, transitions, tick)->0) == reading_key(c),
{
    lemma_canonical_symmetric(c.first.agent, c.second.agent);
}

/// The position of a pair's interval among a list, if it is there.
fn find_open(open: &Vec<OvertakeRecord>, key: PairKey) -> (r: Option<usize>)
    ensures
        match r {
            Some(i) => i < open@.len() && interval_key(views(open@)[i as int]) == key,
            None => !has_open(views(open@), key),
        },
{
    let mut i: usize = 0;
    while i < open.len()
        invariant
            i <= open@.len(),
            forall|j: int| 0 <= j < i ==> interval_key(#[trigger] views(open@)[j]) != key,
        decreases open.len() - i,
    {
        if canonical_pair(open[i].agent, open[i].partner) == key {
            return Some(i);
        }
        i = i + 1;
    }
    None
}

/// A freshly opened interval of a passing pair, before its first observed
/// tick.
fn fresh_record(agent: AgentId, partner: AgentId, tick: u64, bands: Vec<BandTally>) -> (r: OvertakeRecord)
    ensures
        r@ == fresh_interval(agent, partner, tick, bands@),
{
    OvertakeRecord {
        agent,
        partner,
        facility: None,
        side: None,
        start_tick: tick,
        end_tick: tick,
        min_clearance_m: Measure::infinity(),
        min_clearance_time_s: Measure::zero(),
        relative_speed_mps: Measure::zero(),
        bands,
        crossed_boundary: false,
        entered_opposing: false,
    }
}

/// Extend every open interval one of the tick's readings names, and collect
/// the intervals the readings of passing pairs open. Returns which open
/// intervals were read and the opened intervals.
#[verifier::rlimit(40)]
fn advance_open(
    open: &mut Vec<OvertakeRecord>,
    readings: &Vec<AlongsideReading>,
    bands: &Vec<ClearanceBand>,
    transitions: &Vec<AgentId>,
    tick: u64,
) -> (r: (Vec<bool>, Vec<OvertakeRecord>))
    requires
        ascending(views(old(open)@)),
        forall|i: int| 0 <= i < old(open)@.len() ==> tallies_before(#[trigger] views(old(open)@)[i], tick),
        tick < u64::MAX,
        readings_distinct(readings@),
    ensures
        ({
            let old_open = views(old(open)@);
            let cur = views(final(open)@);
            let seen = r.0@;
            let opened = views(r.1@);
            &&& cur.len() == old_open.len()
            &&& seen.len() == old_open.len()
            &&& forall|i: int| 0 <= i < old_open.len() ==> (#[trigger] seen[i] <==> read_pair(readings@, interval_key(old_open[i])))
            &&& forall|i: int| 0 <= i < old_open.len() ==> interval_key(#[trigger] cur[i]) == interval_key(old_open[i])
            &&& forall|i: int| 0 <= i < old_open.len() && !(#[trigger] seen[i]) ==> cur[i] == old_open[i]
            &&& forall|i: int| 0 <= i < old_open.len() && #[trigger] seen[i] ==> Some(cur[i]) == reading_outcome(
                old_open,
                readings@[reading_index(readings@, interval_key(old_open[i]))],
                bands@,
                transitions@,
                tick,
            ) && current(cur[i], tick)
            &&& forall|j: int| 0 <= j < opened.len() ==> opened_by(old_open, readings@, bands@, transitions@, tick, readings@.len() as int, #[trigger] opened[j])
                && current(opened[j], tick)
            &&& forall|l: int| 0 <= l < readings@.len() && !has_open(old_open, reading_key(readings@[l])) && (#[trigger] reading_outcome(
                old_open,
                readings@[l],
                bands@,
                transitions@,
                tick,
            )) is Some ==> opened.contains(reading_outcome(old_open, readings@[l], bands@, transitions@, tick)->0)
            &&& forall|j: int| 0 <= j < opened.len() ==> !has_open(old_open, interval_key(#[trigger] opened[j]))
            &&& forall|j1: int, j2: int| 0 <= j1 < j2 < opened.len() ==> interval_key(#[trigger] opened[j1]) != interval_key(#[trigger] opened[j2])
        }),
{
    let ghost old_open = views(open@);
    let mut seen: Vec<bool> = Vec::new();
    let mut i: usize = 0;
    while i < open.len()
        invariant
            i <= open@.len(),
            seen@.len() == i,
            open@ == old(open)@,
            forall|j: int| 0 <= j < i ==> !(#[trigger] seen@[j]),
        decreases open.len() - i,
    {
        seen.push(false);
        i = i + 1;
    }
    let mut opened: Vec<OvertakeRecord> = Vec::new();
    let mut k: usize = 0;
    while k < readings.len()
        invariant
            k <= readings@.len(),
            old_open == views(old(open)@),
            ascending(old_open),
            forall|i: int| 0 <= i < old_open.len() ==> tallies_before(#[trigger] old_open[i], tick),
            tick < u64::MAX,
            readings_distinct(readings@),
            open@.len() == old_open.len(),
            seen@.len() == old_open.len(),
            forall|i: int| 0 <= i < old_open.len() ==> (#[trigger] seen@[i] <==> read_before(readings@, k as int, interval_key(old_open[i]))),
            forall|i: int| 0 <= i < old_open.len() ==> interval_key(#[trigger] views(open@)[i]) == interval_key(old_open[i]),
            forall|i: int| 0 <= i < old_open.len() && !(#[trigger] seen@[i]) ==> views(open@)[i] == old_open[i],
            forall|i: int| 0 <= i < old_open.len() && #[trigger] seen@[i] ==> Some(views(open@)[i]) == reading_outcome(
                old_open,
                readings@[reading_index(readings@, interval_key(old_open[i]))],
                bands@,
                transitions@,
                tick,
            ) && current(views(open@)[i], tick),
            forall|j: int| 0 <= j < opened@.len() ==> opened_by(old_open, readings@, bands@, transitions@, tick, k as int, #[trigger] views(opened@)[j])
                && current(views(opened@)[j], tick),
            forall|l: int| 0 <= l < k && !has_open(old_open, reading_key(readings@[l])) && (#[trigger] reading_outcome(
                old_open,
                readings@[l],
                bands@,
                transitions@,
                tick,
            )) is Some ==> views(opened@).contains(reading_outcome(old_open, readings@[l], bands@, transitions@, tick)->0),
            forall|j: int| 0 <= j < opened@.len() ==> !has_open(old_open, interval_key(#[trigger] views(opened@)[j]))
                && read_before(readings@, k as int, interval_key(views(opened@)[j])),
            forall|j1: int, j2: int| 0 <= j1 < j2 < opened@.len() ==> interval_key(#[trigger] views(opened@)[j1]) != interval_key(#[trigger] views(opened@)[j2]),
        decreases readings.len() - k,
    {
        let c = &readings[k];
        let key = canonical_pair(c.first.agent, c.second.agent);
        let ghost prev_open = views(open@);
        let ghost prev_seen = seen@;
        let ghost prev_opened = views(opened@);
        proof {
            assert(reading_key(readings@[k as int]) == key);
            lemma_reading_index_unique(readings@, k as int);
            assert forall|l: int| 0 <= l < k implies #[trigger] reading_key(readings@[l]) != key by {
                assert(reading_key(readings@[l]) != reading_key(readings@[k as int]));
            }
        }
        match find_open(open, key) {
            Some(i) => {
                proof {
                    lemma_open_of_unique(old_open, i as int);
                    assert(interval_key(old_open[i as int]) == key);
                    if seen@[i as int] {
                        let l = choose|l: int| 0 <= l < k && #[trigger] reading_key(readings@[l]) == interval_key(old_open[i as int]);
                        assert(reading_key(readings@[l]) != key);
                    }
                    assert(!seen@[i as int]);
                    assert(views(open@)[i as int] == old_open[i as int]);
                }
                let mut r = copy_record(&open[i]);
                observe_interval(&mut r, c, tick, transitions);
                open.set(i, r);
                seen.set(i, true);
                proof {
                    assert(views(open@) =~= prev_open.update(i as int, r@));
                    assert(reading_outcome(old_open, readings@[k as int], bands@, transitions@, tick) == Some(r@));
                    assert forall|i2: int| 0 <= i2 < old_open.len() implies (#[trigger] seen@[i2] <==> read_before(
                        readings@,
                        k + 1,
                        interval_key(old_open[i2]),
                    )) by {
                        if i2 == i {
                            assert(reading_key(readings@[k as int]) == interval_key(old_open[i2]));
                        } else {
                            if read_before(readings@, k + 1, interval_key(old_open[i2])) {
                                let l = choose|l: int| 0 <= l < k + 1 && #[trigger] reading_key(readings@[l]) == interval_key(old_open[i2]);
                                if l == k {
                                    lemma_pair_order(interval_key(old_open[i2]), interval_key(old_open[i as int]));
                                    assert(false);
                                }
                            }
                        }
                    }
                    assert forall|j: int| 0 <= j < opened@.len() implies read_before(readings@, k + 1, interval_key(#[trigger] views(opened@)[j])) by {
                        let l = choose|l: int| 0 <= l < k && #[trigger] reading_key(readings@[l]) == interval_key(views(opened@)[j]);
                        assert(reading_key(readings@[l]) == interval_key(views(opened@)[j]));
                    }
                    assert forall|j: int| 0 <= j < opened@.len() implies opened_by(old_open, readings@, bands@, transitions@, tick, k + 1, #[trigger] views(opened@)[j]) by {
                        let l = choose|l: int| 0 <= l < k && !has_open(old_open, reading_key(readings@[l])) && #[trigger] reading_outcome(old_open, readings@[l], bands@, transitions@, tick) == Some(views(opened@)[j]);
                        assert(reading_outcome(old_open, readings@[l], bands@, transitions@, tick) == Some(views(opened@)[j]));
                    }
                }
            },
            None => {
                proof {
                    if has_open(old_open, key) {
                        let i2 = choose|i2: int| 0 <= i2 < old_open.len() && #[trigger] interval_key(old_open[i2]) == key;
                        assert(interval_key(views(open@)[i2]) == key);
                    }
                }
                match passing_pair(&c.first, &c.second) {
                    Some(pp) => {
                        let mut r = fresh_record(
                            pp.0,
                            pp.1,
                            tick,
                            participating_bands(bands, c.first.mode_template, c.second.mode_template),
                        );
                        observe_interval(&mut r, c, tick, transitions);
                        opened.push(r);
                        proof {
                            assert(views(opened@) =~= prev_opened.push(r@));
                            assert(reading_outcome(old_open, readings@[k as int], bands@, transitions@, tick) == Some(r@));
                            lemma_outcome_key(old_open, readings@[k as int], bands@, transitions@, tick);
                            assert(views(opened@)[prev_opened.len() as int] == r@);
                            assert(opened_by(old_open, readings@, bands@, transitions@, tick, k + 1, r@));
                            assert(read_before(readings@, k + 1, interval_key(r@)));
                        }
                    },
                    None => {},
                }
                proof {
                    assert forall|i2: int| 0 <= i2 < old_open.len() implies (#[trigger] seen@[i2] <==> read_before(
                        readings@,
                        k + 1,
                        interval_key(old_open[i2]),
                    )) by {
                        if read_before(readings@, k + 1, interval_key(old_open[i2])) {
                            let l = choose|l: int| 0 <= l < k + 1 && #[trigger] reading_key(readings@[l]) == interval_key(old_open[i2]);
                            if l == k {
                                assert(has_open(old_open, key));
                            }
                        }
                    }
                    assert forall|j: int| 0 <= j < prev_opened.len() implies read_before(readings@, k + 1, interval_key(#[trigger] views(opened@)[j]))
                        && opened_by(old_open, readings@, bands@, transitions@, tick, k + 1, views(opened@)[j]) by {
                        assert(views(opened@)[j] == prev_opened[j]);
                        let l = choose|l: int| 0 <= l < k && #[trigger] reading_key(readings@[l]) == interval_key(prev_opened[j]);
                        assert(reading_key(readings@[l]) == interval_key(views(opened@)[j]));
                        let l2 = choose|l: int| 0 <= l < k && !has_open(old_open, reading_key(readings@[l])) && #[trigger] reading_outcome(old_open, readings@[l], bands@, transitions@, tick) == Some(prev_opened[j]);
                        assert(reading_outcome(old_open, readings@[l2], bands@, transitions@, tick) == Some(views(opened@)[j]));
                    }
                    assert forall|j1: int, j2: int| 0 <= j1 < j2 < opened@.len() implies interval_key(#[trigger] views(opened@)[j1]) != interval_key(#[trigger] views(opened@)[j2]) by {
                        if j2 == prev_opened.len() {
                            let l = choose|l: int| 0 <= l < k && #[trigger] reading_key(readings@[l]) == interval_key(prev_opened[j1]);
                            assert(views(opened@)[j1] == prev_opened[j1]);
                            assert(reading_key(readings@[l]) != key);
                        } else {
                            assert(views(opened@)[j1] == prev_opened[j1]);
                            assert(views(opened@)[j2] == prev_opened[j2]);
                        }
                    }
                    assert forall|l: int| 0 <= l < k + 1 && !has_open(old_open, reading_key(readings@[l])) && (#[trigger] reading_outcome(
                        old_open,
                        readings@[l],
                        bands@,
                        transitions@,
                        tick,
                    )) is Some implies views(opened@).contains(reading_outcome(old_open, readings@[l], bands@, transitions@, tick)->0) by {
                        if l < k {
                            let x = reading_outcome(old_open, readings@[l], bands@, transitions@, tick)->0;
                            assert(prev_opened.contains(x));
                            let m = choose|m: int| 0 <= m < prev_opened.len() && prev_opened[m] == x;
                            assert(views(opened@)[m] == x);
                        }
                    }
                }
            },
        }
        k = k + 1;
    }
    proof {
        assert forall|i2: int| 0 <= i2 < old_open.len() implies (#[trigger] seen@[i2] <==> read_pair(readings@, interval_key(old_open[i2]))) by {
            if read_pair(readings@, interval_key(old_open[i2])) {
                let l = choose|l: int| 0 <= l < readings@.len() && #[trigger] reading_key(readings@[l]) == interval_key(old_open[i2]);
                assert(read_before(readings@, k as int, interval_key(old_open[i2])));
            }
        }
    }
    (seen, opened)
}

/// Whether a list of intervals holds the interval at some position before
/// `i` of another list.
pub open spec fn drawn_from(s: Seq<IntervalView>, i: int, x: IntervalView) -> bool {
    exists|j: int| 0 <= j < i && #[trigger] s[j] == x
}

/// Whether an interval is one of a list's intervals whose flag is set.
pub open spec fn flagged_in(s: Seq<IntervalView>, flags: Seq<bool>, x: IntervalView) -> bool {
    exists|i: int| 0 <= i < s.len() && i < flags.len() && flags[i] && #[trigger] s[i] == x
}

/// Move every open interval no reading named to the completed list, in order,
/// and return the read ones, still ascending.
fn split_closed(
    open: &Vec<OvertakeRecord>,
    seen: &Vec<bool>,
    old_open: Ghost<Seq<IntervalView>>,
    end: Ghost<u64>,
    readings: Ghost<Seq<AlongsideReading>>,
    overtakes: &mut Vec<OvertakeRecord>,
) -> (kept: Vec<OvertakeRecord>)
    requires
        seen@.len() == open@.len(),
        old_open@.len() == open@.len(),
        ascending(views(open@)),
        ascending(old_open@),
        in_close_order(views(old(overtakes)@)),
        forall|i: int| 0 <= i < old_open@.len() ==> (#[trigger] old_open@[i]).end_tick == end@,
        old_open@.len() > 0 ==> forall|m: int| 0 <= m < old(overtakes)@.len() ==> (#[trigger] views(old(overtakes)@)[m]).end_tick < end@,
        forall|i: int| 0 <= i < open@.len() ==> (#[trigger] seen@[i] <==> read_pair(readings@, interval_key(old_open@[i]))),
        forall|i: int| 0 <= i < open@.len() && !(#[trigger] seen@[i]) ==> views(open@)[i] == old_open@[i],
    ensures
        views(final(overtakes)@) == views(old(overtakes)@) + old_open@.filter(|iv: IntervalView| !read_pair(readings@, interval_key(iv))),
        in_close_order(views(final(overtakes)@)),
        ascending(views(kept@)),
        forall|m: int| 0 <= m < kept@.len() ==> drawn_from(views(open@), open@.len() as int, #[trigger] views(kept@)[m]),
        forall|m: int| 0 <= m < kept@.len() ==> flagged_in(views(open@), seen@, #[trigger] views(kept@)[m]),
        forall|i: int| 0 <= i < open@.len() && #[trigger] seen@[i] ==> views(kept@).contains(views(open@)[i]),
{
    let ghost pred = |iv: IntervalView| !read_pair(readings@, interval_key(iv));
    let mut kept: Vec<OvertakeRecord> = Vec::new();
    let mut i: usize = 0;
    proof {
        assert(old_open@.subrange(0, 0).filter(pred) =~= Seq::<IntervalView>::empty());
        assert(views(overtakes@) =~= views(old(overtakes)@) + Seq::<IntervalView>::empty());
    }
    while i < open.len()
        invariant
            i <= open@.len(),
            seen@.len() == open@.len(),
            old_open@.len() == open@.len(),
            ascending(views(open@)),
            forall|i2: int| 0 <= i2 < open@.len() ==> (#[trigger] seen@[i2] <==> read_pair(readings@, interval_key(old_open@[i2]))),
            forall|i2: int| 0 <= i2 < open@.len() && !(#[trigger] seen@[i2]) ==> views(open@)[i2] == old_open@[i2],
            pred == (|iv: IntervalView| !read_pair(readings@, interval_key(iv))),
            views(overtakes@) == views(old(overtakes)@) + old_open@.subrange(0, i as int).filter(pred),
            ascending(old_open@),
            in_close_order(views(overtakes@)),
            forall|i2: int| 0 <= i2 < old_open@.len() ==> (#[trigger] old_open@[i2]).end_tick == end@,
            old_open@.len() > 0 ==> forall|m: int| 0 <= m < old(overtakes)@.len() ==> (#[trigger] views(old(overtakes)@)[m]).end_tick < end@,
            old(overtakes)@.len() <= overtakes@.len(),
            forall|m: int| 0 <= m < old(overtakes)@.len() ==> views(overtakes@)[m] == #[trigger] views(old(overtakes)@)[m],
            forall|m: int| old(overtakes)@.len() <= m < overtakes@.len() ==> drawn_from(old_open@, i as int, #[trigger] views(overtakes@)[m]),
            ascending(views(kept@)),
            forall|m: int| #![trigger views(kept@)[m]] 0 <= m < kept@.len() ==> exists|i2: int| 0 <= i2 < i && #[trigger] seen@[i2] && views(kept@)[m] == views(open@)[i2],
            forall|i2: int| 0 <= i2 < i && #[trigger] seen@[i2] ==> views(kept@).contains(views(open@)[i2]),
        decreases open.len() - i,
    {
        let ghost prev_kept = views(kept@);
        let ghost prev_over = views(overtakes@);
        proof {
            assert(old_open@.subrange(0, i + 1) =~= old_open@.subrange(0, i as int).push(old_open@[i as int]));
            old_open@.subrange(0, i as int).lemma_filter_push(old_open@[i as int], pred);
        }
        if seen[i] {
            let r = copy_record(&open[i]);
            proof {
                assert forall|m: int| 0 <= m < prev_kept.len() implies pair_before(interval_key(#[trigger] prev_kept[m]), interval_key(r@)) by {
                    let i2 = choose|i2: int| 0 <= i2 < i && #[trigger] seen@[i2] && prev_kept[m] == views(open@)[i2];
                    assert(pair_before(interval_key(views(open@)[i2]), interval_key(views(open@)[i as int])));
                }
            }
            kept.push(r);
            proof {
                assert(views(kept@) =~= prev_kept.push(r@));
                assert(!pred(old_open@[i as int]));
            }
        } else {
            let r = copy_record(&open[i]);
            proof {
                assert(r@ == old_open@[i as int]);
                assert forall|m: int| 0 <= m < prev_over.len() implies (#[trigger] prev_over[m]).end_tick < r@.end_tick || (
                prev_over[m].end_tick == r@.end_tick && pair_before(interval_key(prev_over[m]), interval_key(r@))) by {
                    if m < old(overtakes)@.len() {
                        assert(prev_over[m] == views(old(overtakes)@)[m]);
                    } else {
                        let i2 = choose|i2: int| 0 <= i2 < i && #[trigger] old_open@[i2] == prev_over[m];
                        assert(pair_before(interval_key(old_open@[i2]), interval_key(old_open@[i as int])));
                    }
                }
            }
            overtakes.push(r);
            proof {
                assert(views(overtakes@) =~= prev_over.push(r@));
                assert(pred(old_open@[i as int]));
                assert forall|a: int, b: int| 0 <= a < b < views(overtakes@).len() implies #[trigger] views(overtakes@)[a].end_tick < #[trigger] views(overtakes@)[b].end_tick || (
                views(overtakes@)[a].end_tick == views(overtakes@)[b].end_tick && pair_before(interval_key(views(overtakes@)[a]), interval_key(views(overtakes@)[b]))) by {
                    if b < prev_over.len() {
                        assert(views(overtakes@)[a] == prev_over[a]);
                        assert(views(overtakes@)[b] == prev_over[b]);
                    } else {
                        assert(views(overtakes@)[a] == prev_over[a]);
                    }
                }
            }
        }
        proof {
            assert forall|m: int| old(overtakes)@.len() <= m < overtakes@.len() implies drawn_from(old_open@, i + 1, #[trigger] views(overtakes@)[m]) by {
                if m < prev_over.len() {
                    assert(views(overtakes@)[m] == prev_over[m]);
                    let i2 = choose|i2: int| 0 <= i2 < i && #[trigger] old_open@[i2] == prev_over[m];
                    assert(old_open@[i2] == views(overtakes@)[m]);
                } else {
                    assert(old_open@[i as int] == views(overtakes@)[m]);
                }
            }
            assert forall|m: int| 0 <= m < old(overtakes)@.len() implies views(overtakes@)[m] == #[trigger] views(old(overtakes)@)[m] by {
                assert(views(overtakes@)[m] == prev_over[m]);
            }
        }
        proof {
            assert forall|i2: int| 0 <= i2 < i + 1 && #[trigger] seen@[i2] implies views(kept@).contains(views(open@)[i2]) by {
                if i2 < i {
                    let x = views(open@)[i2];
                    assert(prev_kept.contains(x));
                    let m = choose|m: int| 0 <= m < prev_kept.len() && prev_kept[m] == x;
                    assert(views(kept@)[m] == x);
                } else {
                    assert(views(kept@)[prev_kept.len() as int] == views(open@)[i2]);
                }
            }
            assert forall|m: int| #![trigger views(kept@)[m]] 0 <= m < kept@.len() implies exists|i2: int| 0 <= i2 < i + 1 && #[trigger] seen@[i2] && views(kept@)[m] == views(open@)[i2] by {
                if m < prev_kept.len() {
                    assert(views(kept@)[m] == prev_kept[m]);
                    let i2 = choose|i2: int| 0 <= i2 < i && #[trigger] seen@[i2] && prev_kept[m] == views(open@)[i2];
                    assert(seen@[i2] && views(kept@)[m] == views(open@)[i2]);
                } else {
                    assert(seen@[i as int] && views(kept@)[m] == views(open@)[i as int]);
                }
            }
        }
        i = i + 1;
    }
    proof {
        assert(i == open@.len());
        assert(old_open@.subrange(0, i as int) =~= old_open@);
        assert forall|m: int| #![trigger views(kept@)[m]] 0 <= m < kept@.len() implies drawn_from(views(open@), open@.len() as int, views(kept@)[m])
            && flagged_in(views(open@), seen@, views(kept@)[m]) by {
            let x = views(kept@)[m];
            assert(exists|i2: int| 0 <= i2 < i && #[trigger] seen@[i2] && x == views(open@)[i2]);
            let i2 = choose|i2: int| 0 <= i2 < i && #[trigger] seen@[i2] && x == views(open@)[i2];
            assert(views(open@)[i2] == x);
        }
    }
    kept
}

/// Insert an interval of a pair not yet listed at its ascending position.
fn insert_ascending(v: &mut Vec<OvertakeRecord>, r: OvertakeRecord)
    requires
        ascending(views(old(v)@)),
        !has_open(views(old(v)@), interval_key(r@)),
    ensures
        ascending(views(final(v)@)),
        views(final(v)@).len() == views(old(v)@).len() + 1,
        forall|x: IntervalView|
            #![trigger views(final(v)@).contains(x)]
            #![trigger views(old(v)@).contains(x)]
            views(final(v)@).contains(x) <==> (views(old(v)@).contains(x) || x == r@),
{
    let key = canonical_pair(r.agent, r.partner);
    let ghost before = views(v@);
    let mut p: usize = 0;
    while p < v.len()
        invariant
            p <= v@.len(),
            views(v@) == before,
            forall|j: int| 0 <= j < p ==> pair_before(interval_key(#[trigger] before[j]), key),
        ensures
            p <= v@.len(),
            views(v@) == before,
            forall|j: int| 0 <= j < p ==> pair_before(interval_key(#[trigger] before[j]), key),
            p < v@.len() ==> !pair_before(interval_key(before[p as int]), key),
        decreases v.len() - p,
    {
        if !pair_precedes(&canonical_pair(v[p].agent, v[p].partner), &key) {
            break;
        }
        p = p + 1;
    }
    v.insert(p, r);
    proof {
        let after = views(v@);
        assert(after =~= before.insert(p as int, r@));
        assert forall|i: int, j: int| 0 <= i < j < after.len() implies pair_before(#[trigger] interval_key(after[i]), #[trigger] interval_key(after[j])) by {
            if j < p {
            } else if j == p {
            } else if i < p {
                assert(pair_before(interval_key(before[i]), interval_key(before[j - 1])));
            } else if i == p {
                let b = interval_key(before[p as int]);
                lemma_pair_order(key, b);
                if key == b {
                    assert(has_open(before, key));
                }
                if j - 1 > p {
                    assert(pair_before(b, interval_key(before[j - 1])));
                }
            } else {
                assert(pair_before(interval_key(before[i - 1]), interval_key(before[j - 1])));
            }
        }
        assert forall|x: IntervalView| after.contains(x) <==> (before.contains(x) || x == r@) by {
            if after.contains(x) {
                let m = choose|m: int| 0 <= m < after.len() && after[m] == x;
                if m < p {
                    assert(before[m] == x);
                } else if m > p {
                    assert(before[m - 1] == x);
                }
            }
            if before.contains(x) {
                let m = choose|m: int| 0 <= m < before.len() && before[m] == x;
                if m < p {
                    assert(after[m] == x);
                } else {
                    assert(after[m + 1] == x);
                }
            }
            if x == r@ {
                assert(after[p as int] == x);
            }
        }
    }
}

/// Insert every opened interval into the ascending list of read intervals.
fn merge_opened(kept: &mut Vec<OvertakeRecord>, opened: Vec<OvertakeRecord>)
    requires
        ascending(views(old(kept)@)),
        forall|j: int| 0 <= j < opened@.len() ==> !has_open(views(old(kept)@), interval_key(#[trigger] views(opened@)[j])),
        forall|j1: int, j2: int| 0 <= j1 < j2 < opened@.len() ==> interval_key(#[trigger] views(opened@)[j1]) != interval_key(#[trigger] views(opened@)[j2]),
    ensures
        ascending(views(final(kept)@)),
        forall|x: IntervalView|
            #![trigger views(final(kept)@).contains(x)]
            #![trigger views(old(kept)@).contains(x)]
            #![trigger views(opened@).contains(x)]
            views(final(kept)@).contains(x) <==> (views(old(kept)@).contains(x) || views(opened@).contains(x)),
{
    let ghost all = views(opened@);
    let ghost start = views(kept@);
    let mut rest = opened;
    while rest.len() > 0
        invariant
            ascending(views(kept@)),
            rest@.len() <= all.len(),
            views(rest@) == all.subrange(0, rest@.len() as int),
            forall|j1: int, j2: int| 0 <= j1 < j2 < all.len() ==> interval_key(#[trigger] all[j1]) != interval_key(#[trigger] all[j2]),
            forall|j: int| 0 <= j < rest@.len() ==> !has_open(views(kept@), interval_key(#[trigger] all[j])),
            forall|x: IntervalView|
                #![trigger views(kept@).contains(x)]
                #![trigger start.contains(x)]
                #![trigger all.subrange(rest@.len() as int, all.len() as int).contains(x)]
                views(kept@).contains(x) <==> (start.contains(x) || all.subrange(rest@.len() as int, all.len() as int).contains(x)),
        decreases rest.len(),
    {
        let ghost n = rest@.len();
        let ghost prev = views(kept@);
        let ghost prev_rest = rest@;
        let r = rest.pop().unwrap();
        proof {
            assert(views(rest@) =~= all.subrange(0, n - 1));
            assert(views(prev_rest)[n - 1] == r@);
            assert(all.subrange(0, n as int)[n - 1] == all[n - 1]);
            assert(r@ == all[n - 1]);
        }
        insert_ascending(kept, r);
        proof {
            assert forall|j: int| 0 <= j < rest@.len() implies !has_open(views(kept@), interval_key(#[trigger] all[j])) by {
                if has_open(views(kept@), interval_key(all[j])) {
                    let m = choose|m: int| 0 <= m < views(kept@).len() && #[trigger] interval_key(views(kept@)[m]) == interval_key(all[j]);
                    let x = views(kept@)[m];
                    assert(views(kept@).contains(x));
                    if x == r@ {
                        assert(interval_key(all[j]) != interval_key(all[n - 1]));
                    } else {
                        let m2 = choose|m2: int| 0 <= m2 < prev.len() && prev[m2] == x;
                        assert(interval_key(prev[m2]) == interval_key(all[j]));
                        assert(has_open(prev, interval_key(all[j])));
                    }
                }
            }
            assert forall|x: IntervalView| views(kept@).contains(x) <==> (start.contains(x) || all.subrange(rest@.len() as int, all.len() as int).contains(x)) by {
                let tail = all.subrange(n as int, all.len() as int);
                let tail2 = all.subrange(n - 1, all.len() as int);
                assert(tail2 =~= seq![r@] + tail);
                assert(rest@.len() == n - 1);
                assert(prev.contains(x) <==> (start.contains(x) || tail.contains(x)));
                assert(views(kept@).contains(x) <==> (prev.contains(x) || x == r@));
                if tail2.contains(x) {
                    let m = choose|m: int| 0 <= m < tail2.len() && tail2[m] == x;
                    if m > 0 {
                        assert(tail[m - 1] == x);
                    }
                }
                if tail.contains(x) {
                    let m = choose|m: int| 0 <= m < tail.len() && tail[m] == x;
                    assert(tail2[m + 1] == x);
                }
                if x == r@ {
                    assert(tail2[0] == x);
                }
            }
        }
    }
    proof {
        assert(all.subrange(0, all.len() as int) =~= all);
        assert forall|x: IntervalView| views(kept@).contains(x) <==> (start.contains(x) || all.contains(x)) by {
            assert(views(kept@).contains(x) <==> (start.contains(x) || all.subrange(0, all.len() as int).contains(x)));
        }
    }
}

/// One observed tick's effect on a tracker's intervals: the open intervals no
/// reading names are appended to the completed ones in their ascending pair
/// order; the open intervals after the tick, ascending by pair, are exactly
/// the outcomes the tick's readings leave.
pub open spec fn tick_observed(
    open: Seq<IntervalView>,
    closed: Seq<IntervalView>,
    readings: Seq<AlongsideReading>,
    bands: Seq<ClearanceBand>,
    transitions: Seq<AgentId>,
    tick: u64,
    open_after: Seq<IntervalView>,
    closed_after: Seq<IntervalView>,
) -> bool {
    &&& closed_after == closed + open.filter(|iv: IntervalView| !read_pair(readings, interval_key(iv)))
    &&& ascending(open_after)
    &&& forall|i: int|
        0 <= i < open_after.len() ==> left_by_readings(open, readings, bands, transitions, tick, #[trigger] open_after[i])
    &&& forall|k: int|
        0 <= k < readings.len() && (#[trigger] reading_outcome(open, readings[k], bands, transitions, tick)) is Some
            ==> open_after.contains(reading_outcome(open, readings[k], bands, transitions, tick)->0)
}

/// Online close-pass tracking for one run.
///
/// The open intervals are kept ascending by canonical pair, one per pair; the
/// completed intervals are kept in close order. The pair is a struct of the
/// library, whose derived ordering vstd's ordered-map contracts cannot rely
/// on, so the open intervals live in a vector kept ascending by that pair.
#[derive(Debug)]
pub struct ClosePassTracker {
    open: Vec<OvertakeRecord>,
    overtakes: Vec<OvertakeRecord>,
    last_tick: Option<u64>,
}

impl ClosePassTracker {
    /// The open intervals, ascending by canonical pair.
    pub closed spec fn open_intervals(&self) -> Seq<IntervalView> {
        views(self.open@)
    }

    /// The completed intervals, in the order they closed.
    pub closed spec fn closed_intervals(&self) -> Seq<IntervalView> {
        views(self.overtakes@)
    }

    /// The last observed tick, if any.
    pub closed spec fn observed_tick(&self) -> Option<u64> {
        self.last_tick
    }

    /// The tracker's invariant: one open interval per pair, ascending by
    /// pair; every open interval was seen on the last observed tick, and every
    /// tally counts no more ticks than its interval spans; the completed
    /// intervals are in close order, ended no later than the last observed
    /// tick, and before every open interval's end.
    pub closed spec fn wf(&self) -> bool {
        let open = views(self.open@);
        let closed = views(self.overtakes@);
        &&& ascending(open)
        &&& in_close_order(closed)
        &&& match self.last_tick {
            Some(last) => {
                &&& forall|i: int| 0 <= i < open.len() ==> #[trigger] open[i].end_tick == last && tallies_bounded(open[i])
                &&& forall|m: int| 0 <= m < closed.len() ==> (#[trigger] closed[m]).end_tick <= last
                &&& open.len() > 0 ==> forall|m: int| 0 <= m < closed.len() ==> (#[trigger] closed[m]).end_tick < last
            },
            None => open.len() == 0 && closed.len() == 0,
        }
    }

    /// An empty tracker.
    pub fn new() -> (r: ClosePassTracker)
        ensures
            r.wf(),
            r.open_intervals() == Seq::<IntervalView>::empty(),
            r.closed_intervals() == Seq::<IntervalView>::empty(),
            r.observed_tick() == None::<u64>,
    {
        let r = ClosePassTracker { open: Vec::new(), overtakes: Vec::new(), last_tick: None };
        proof {
            assert(views(r.open@) =~= Seq::<IntervalView>::empty());
            assert(views(r.overtakes@) =~= Seq::<IntervalView>::empty());
        }
        r
    }
    /// Observe one integrated tick's alongside candidate pairs: open, extend,
    /// or close the overtaking interval of every pair.
    ///
    /// A reading whose pair has an open interval extends it; a reading of a
    /// pair with none opens one when one body is strictly faster, observing it
    /// once; every open interval no reading names closes, and the closed
    /// intervals are appended in ascending pair order, all ending on the
    /// previous observed tick.
    #[verifier::rlimit(40)]
    pub fn observe(
        &mut self,
        readings: &Vec<AlongsideReading>,
        bands: &Vec<ClearanceBand>,
        transitions: &Vec<AgentId>,
        tick: u64,
    )
        requires
            old(self).wf(),
            match old(self).observed_tick() {
                Some(last) => last < tick,
                None => true,
            },
            tick < u64::MAX,
            readings_distinct(readings@),
        ensures
            final(self).wf(),
            final(self).observed_tick() == Some(tick),
            tick_observed(
                old(self).open_intervals(),
                old(self).closed_intervals(),
                readings@,
                bands@,
                transitions@,
                tick,
                final(self).open_intervals(),
                final(self).closed_intervals(),
            ),
    {
        let ghost old_open = views(self.open@);
        proof {
            assert forall|i: int| 0 <= i < self.open@.len() implies tallies_before(#[trigger] views(self.open@)[i], tick) by {
                assert(views(self.open@)[i].end_tick == self.last_tick->0 && tallies_bounded(views(self.open@)[i]));
            }
        }
        let (seen, opened) = advance_open(&mut self.open, readings, bands, transitions, tick);
        let ghost cur = views(self.open@);
        proof {
            assert forall|i: int, j: int| 0 <= i < j < cur.len() implies pair_before(#[trigger] interval_key(cur[i]), #[trigger] interval_key(cur[j])) by {
                assert(interval_key(cur[i]) == interval_key(old_open[i]));
                assert(interval_key(cur[j]) == interval_key(old_open[j]));
                assert(pair_before(interval_key(old_open[i]), interval_key(old_open[j])));
            }
        }
        let ghost end: u64 = match self.last_tick {
            Some(t) => t,
            None => 0,
        };
        let ghost old_closed = views(self.overtakes@);
        let mut kept = split_closed(&self.open, &seen, Ghost(old_open), Ghost(end), Ghost(readings@), &mut self.overtakes);
        let ghost kept_b = views(kept@);
        let ghost opened_v = views(opened@);
        proof {
            assert forall|j: int| 0 <= j < opened@.len() implies !has_open(kept_b, interval_key(#[trigger] views(opened@)[j])) by {
                let key = interval_key(opened_v[j]);
                if has_open(kept_b, key) {
                    let m = choose|m: int| 0 <= m < kept_b.len() && #[trigger] interval_key(kept_b[m]) == key;
                    assert(drawn_from(cur, cur.len() as int, kept_b[m]));
                    let i = choose|i: int| 0 <= i < cur.len() && #[trigger] cur[i] == kept_b[m];
                    assert(interval_key(old_open[i]) == key);
                    assert(has_open(old_open, key));
                }
            }
        }
        merge_opened(&mut kept, opened);
        self.open = kept;
        self.last_tick = Some(tick);
        proof {
            let fin = views(self.open@);
            let closed_now = views(self.overtakes@);
            let pred = |iv: IntervalView| !read_pair(readings@, interval_key(iv));
            assert forall|m: int| 0 <= m < closed_now.len() implies (#[trigger] closed_now[m]).end_tick < tick by {
                if m < old_closed.len() {
                    assert(closed_now[m] == old_closed[m]);
                } else {
                    let f = old_open.filter(pred);
                    let x = f[m - old_closed.len()];
                    assert(closed_now[m] == x);
                    assert(f.contains(x));
                    old_open.lemma_filter_contains_rev(pred, x);
                    let i = choose|i: int| 0 <= i < old_open.len() && old_open[i] == x;
                    assert(old_open[i].end_tick == end);
                }
            }
            assert forall|i: int| #![trigger fin[i]] 0 <= i < fin.len() implies fin[i].end_tick == tick && tallies_bounded(fin[i])
                && left_by_readings(old_open, readings@, bands@, transitions@, tick, fin[i]) by {
                let x = fin[i];
                assert(fin.contains(x));
                if kept_b.contains(x) {
                    let m = choose|m: int| 0 <= m < kept_b.len() && kept_b[m] == x;
                    assert(flagged_in(cur, seen@, kept_b[m]));
                    let i2 = choose|i2: int| 0 <= i2 < cur.len() && i2 < seen@.len() && seen@[i2] && #[trigger] cur[i2] == kept_b[m];
                    assert(seen@[i2]);
                    let key = interval_key(old_open[i2]);
                    let k = reading_index(readings@, key);
                    assert(read_pair(readings@, key));
                    assert(0 <= k < readings@.len() && reading_key(readings@[k]) == key);
                    assert(reading_outcome(old_open, readings@[k], bands@, transitions@, tick) == Some(x));
                } else {
                    assert(opened_v.contains(x));
                    let j = choose|j: int| 0 <= j < opened_v.len() && opened_v[j] == x;
                    assert(opened_by(old_open, readings@, bands@, transitions@, tick, readings@.len() as int, opened_v[j]));
                    let l = choose|l: int| 0 <= l < readings@.len() && !has_open(old_open, reading_key(readings@[l])) && #[trigger] reading_outcome(
                        old_open,
                        readings@[l],
                        bands@,
                        transitions@,
                        tick,
                    ) == Some(opened_v[j]);
                    assert(reading_outcome(old_open, readings@[l], bands@, transitions@, tick) == Some(x));
                }
            }
            assert forall|k: int| 0 <= k < readings@.len() && (#[trigger] reading_outcome(
                old_open,
                readings@[k],
                bands@,
                transitions@,
                tick,
            )) is Some implies fin.contains(reading_outcome(old_open, readings@[k], bands@, transitions@, tick)->0) by {
                let x = reading_outcome(old_open, readings@[k], bands@, transitions@, tick)->0;
                let key = reading_key(readings@[k]);
                if has_open(old_open, key) {
                    let i = choose|i: int| 0 <= i < old_open.len() && #[trigger] interval_key(old_open[i]) == key;
                    assert(read_pair(readings@, key));
                    assert(seen@[i]);
                    lemma_reading_index_unique(readings@, k);
                    assert(cur[i] == x);
                    assert(kept_b.contains(cur[i]));
                    assert(fin.contains(x) <==> (kept_b.contains(x) || opened_v.contains(x)));
                } else {
                    assert(opened_v.contains(x));
                    assert(fin.contains(x) <==> (kept_b.contains(x) || opened_v.contains(x)));
                }
            }
        }
    }

    /// Close every interval still open at the run's end, recording each as a
    /// termination: the open intervals are appended in close order (ascending
    /// end tick, then pair) and none stays open.
    pub fn close_open(&mut self)
        requires
            old(self).wf(),
        ensures
            final(self).wf(),
            final(self).open_intervals() == Seq::<IntervalView>::empty(),
            final(self).closed_intervals() == old(self).closed_intervals() + old(self).open_intervals(),
            in_close_order(old(self).open_intervals()),
            final(self).observed_tick() == old(self).observed_tick(),
    {
        let ghost before = views(self.open@);
        let ghost closed_before = views(self.overtakes@);
        proof {
            assert forall|i: int, j: int| 0 <= i < j < before.len() implies #[trigger] before[i].end_tick < #[trigger] before[j].end_tick || (
            before[i].end_tick == before[j].end_tick && pair_before(interval_key(before[i]), interval_key(before[j]))) by {
                assert(pair_before(interval_key(before[i]), interval_key(before[j])));
            }
        }
        let mut i: usize = 0;
        while i < self.open.len()
            invariant
                i <= self.open@.len(),
                views(self.open@) == before,
                views(self.overtakes@) == closed_before + before.subrange(0, i as int),
                self.last_tick == old(self).last_tick,
            decreases self.open.len() - i,
        {
            let r = copy_record(&self.open[i]);
            let ghost prev = views(self.overtakes@);
            self.overtakes.push(r);
            proof {
                assert(views(self.overtakes@) =~= prev.push(r@));
                assert(before.subrange(0, i + 1) =~= before.subrange(0, i as int).push(before[i as int]));
            }
            i = i + 1;
        }
        self.open = Vec::new();
        proof {
            assert(before.subrange(0, i as int) =~= before);
            assert(views(self.open@) =~= Seq::<IntervalView>::empty());
        }
    }

    /// Completed overtaking intervals, in close order.
    pub fn overtakes(&self) -> (r: &Vec<OvertakeRecord>)
        ensures
            views(r@) == self.closed_intervals(),
    {
        &self.overtakes
    }

    /// The number of overtaking intervals still open.
    pub fn open_count(&self) -> (r: usize)
        ensures
            r == self.open_intervals().len(),
    {
        self.open.len()
    }
}

/// The participating bands of a record whose compiled violation flag is set
/// and whose threshold the interval's minimum fell strictly below, among the
/// first `n` bands, in declaration order.
pub open spec fn violating_of(bands: Seq<BandTally>, min_clearance_m: Measure, n: int) -> Seq<ClearanceBandId>
    decreases n,
{
    if n <= 0 {
        Seq::<ClearanceBandId>::empty()
    } else {
        let rest = violating_of(bands, min_clearance_m, n - 1);
        let t = bands[n - 1];
        if t.violation && bits_lt(min_clearance_m.bits, t.threshold_m.bits) {
            rest.push(t.band)
        } else {
            rest
        }
    }
}

impl OvertakeRecord {
    /// The violating bands of the interval, in declaration order: the
    /// participating bands that record a violation and whose threshold the
    /// observed minimum fell strictly below.
    pub fn violating_bands(&self) -> (r: Vec<ClearanceBandId>)
        ensures
            r@ == violating_of(self.bands@, self.min_clearance_m, self.bands@.len() as int),
    {
        let mut out: Vec<ClearanceBandId> = Vec::new();
        let mut i: usize = 0;
        while i < self.bands.len()
            invariant
                i <= self.bands@.len(),
                out@ == violating_of(self.bands@, self.min_clearance_m, i as int),
            decreases self.bands.len() - i,
        {
            let t = self.bands[i];
            if t.violation && self.min_clearance_m.less_than(t.threshold_m) {
                out.push(t.band);
            }
            i = i + 1;
        }
        out
    }
}

/// Whether a mode's compiled tactics carry a pass or an overtake capability.
pub open spec fn carries_pass(tactics: Seq<TacticalCapability>) -> bool {
    tactics.contains(TacticalCapability::Pass) || tactics.contains(TacticalCapability::Overtake)
}

/// Whether a close-pass record carries a closed interval's facts, the given
/// band durations and the interval's violating bands.
pub open spec fn is_close_pass_record(e: Event, r: IntervalView, bands: Vec<ClosePassBand>) -> bool {
    match e {
        Event::ClosePass {
            agent,
            partner,
            facility,
            side,
            min_clearance_m,
            min_clearance_time_s,
            relative_speed_mps,
            bands: carried,
            violating_bands,
            crossed_boundary,
            entered_opposing,
        } => {
            &&& agent == r.agent
            &&& partner == r.partner
            &&& Some(facility) == r.facility
            &&& Some(side) == r.side
            &&& min_clearance_m == r.min_clearance_m
            &&& min_clearance_time_s == r.min_clearance_time_s
            &&& relative_speed_mps == r.relative_speed_mps
            &&& carried == bands
            &&& violating_bands@ == violating_of(r.bands, r.min_clearance_m, r.bands.len() as int)
            &&& crossed_boundary == r.crossed_boundary
            &&& entered_opposing == r.entered_opposing
        },
        _ => false,
    }
}

/// The close-pass record of one closed interval, or `None` when the record's
/// applicability does not hold.
///
/// A record is given only to a pass on a compiled facility whose side is
/// resolved, by a passing agent whose mode's compiled tactics (`None` when the
/// agent carries no compiled mode) carry a pass or an overtake capability. The
/// interval always closes; only its record is withheld. `bands` are the
/// interval's band durations in declaration order.
pub fn close_pass_event(record: &OvertakeRecord, tactics: Option<&Vec<TacticalCapability>>, bands: Vec<ClosePassBand>) -> (r:
    Option<Event>)
    ensures
        r is Some <==> (record.facility is Some && record.side is Some && match tactics {
            Some(t) => carries_pass(t@),
            None => false,
        }),
        r matches Some(e) ==> is_close_pass_record(e, record@, bands),
{
    let facility = match record.facility {
        Some(f) => f,
        None => return None,
    };
    let side = match record.side {
        Some(s) => s,
        None => return None,
    };
    let supports = match tactics {
        Some(t) => lists_capability(t, TacticalCapability::Pass) || lists_capability(t, TacticalCapability::Overtake),
        None => false,
    };
    if !supports {
        return None;
    }
    let violating_bands = record.violating_bands();
    Some(
        Event::ClosePass {
            agent: record.agent,
            partner: record.partner,
            facility,
            side,
            min_clearance_m: record.min_clearance_m,
            min_clearance_time_s: record.min_clearance_time_s,
            relative_speed_mps: record.relative_speed_mps,
            bands,
            violating_bands,
            crossed_boundary: record.crossed_boundary,
            entered_opposing: record.entered_opposing,
        },
    )
}

/// Whether a list of compiled tactics carries a capability.
fn lists_capability(tactics: &Vec<TacticalCapability>, capability: TacticalCapability) -> (r: bool)
    ensures
        r == tactics@.contains(capability),
{
    let mut i: usize = 0;
    while i < tactics.len()
        invariant
            i <= tactics@.len(),
            forall|j: int| 0 <= j < i ==> tactics@[j] != capability,
        decreases tactics.len() - i,
    {
        if tactics[i] == capability {
            assert(tactics@[i as int] == capability);
            return true;
        }
        i = i + 1;
    }
    false
}

/// A reading with its two bodies named in the other order.
pub open spec fn swapped(c: AlongsideReading) -> AlongsideReading {
    AlongsideReading {
        first: c.second,
        second: c.first,
        first_minus_second_mps: c.second_minus_first_mps,
        second_minus_first_mps: c.first_minus_second_mps,
        ..c
    }
}

/// Naming a pair's two modes in either order selects the same bands.
proof fn lemma_participating_symmetric(
    bands: Seq<ClearanceBand>,
    first: Option<ModeTemplateId>,
    second: Option<ModeTemplateId>,
    n: int,
)
    ensures
        participating_of(bands, first, second, n) == participating_of(bands, second, first, n),
    decreases n,
{
    if n > 0 {
        lemma_participating_symmetric(bands, first, second, n - 1);
    }
}

/// Two ascending interval lists that hold the same intervals are equal.
proof fn lemma_ascending_unique(a: Seq<IntervalView>, b: Seq<IntervalView>)
    requires
        ascending(a),
        ascending(b),
        forall|x: IntervalView| a.contains(x) <==> b.contains(x),
    ensures
        a == b,
    decreases a.len(),
{
    if a.len() == 0 {
        if b.len() > 0 {
            assert(b.contains(b[0]));
        }
        assert(a =~= b);
    } else {
        assert(a.contains(a[0]));
        assert(b.contains(a[0]));
        assert(b.contains(b[0]));
        assert(a.contains(b[0]));
        let ja = choose|j: int| 0 <= j < b.len() && b[j] == a[0];
        let ib = choose|i: int| 0 <= i < a.len() && a[i] == b[0];
        lemma_pair_order(interval_key(a[0]), interval_key(b[0]));
        if ja > 0 {
            assert(pair_before(interval_key(b[0]), interval_key(b[ja])));
            if ib > 0 {
                assert(pair_before(interval_key(a[0]), interval_key(a[ib])));
            }
        }
        if ib > 0 {
            assert(pair_before(interval_key(a[0]), interval_key(a[ib])));
        }
        assert(a[0] == b[0]);
        let a2 = a.subrange(1, a.len() as int);
        let b2 = b.subrange(1, b.len() as int);
        assert forall|i: int, j: int| 0 <= i < j < a2.len() implies pair_before(#[trigger] interval_key(a2[i]), #[trigger] interval_key(a2[j])) by {
            assert(pair_before(interval_key(a[i + 1]), interval_key(a[j + 1])));
        }
        assert forall|i: int, j: int| 0 <= i < j < b2.len() implies pair_before(#[trigger] interval_key(b2[i]), #[trigger] interval_key(b2[j])) by {
            assert(pair_before(interval_key(b[i + 1]), interval_key(b[j + 1])));
        }
        assert forall|x: IntervalView| a2.contains(x) <==> b2.contains(x) by {
            if a2.contains(x) {
                let m = choose|m: int| 0 <= m < a2.len() && a2[m] == x;
                assert(a[m + 1] == x);
                assert(pair_before(interval_key(a[0]), interval_key(a[m + 1])));
                lemma_pair_order(interval_key(a[0]), interval_key(x));
                assert(a.contains(x));
                assert(b.contains(x));
                let m2 = choose|m2: int| 0 <= m2 < b.len() && b[m2] == x;
                assert(m2 != 0);
                assert(b2[m2 - 1] == x);
            }
            if b2.contains(x) {
                let m = choose|m: int| 0 <= m < b2.len() && b2[m] == x;
                assert(b[m + 1] == x);
                assert(pair_before(interval_key(b[0]), interval_key(b[m + 1])));
                lemma_pair_order(interval_key(b[0]), interval_key(x));
                assert(b.contains(x));
                assert(a.contains(x));
                let m2 = choose|m2: int| 0 <= m2 < a.len() && a[m2] == x;
                assert(m2 != 0);
                assert(a2[m2 - 1] == x);
            }
        }
        lemma_ascending_unique(a2, b2);
        assert(a =~= seq![a[0]] + a2);
        assert(b =~= seq![b[0]] + b2);
    }
}

/// The outcome of an observed tick does not depend on the order its
/// candidate pairs are read in: two orderings of the same readings leave the
/// same open intervals and append the same completed intervals.
pub proof fn law_reading_order_is_irrelevant(
    open: Seq<IntervalView>,
    closed: Seq<IntervalView>,
    first_order: Seq<AlongsideReading>,
    second_order: Seq<AlongsideReading>,
    bands: Seq<ClearanceBand>,
    transitions: Seq<AgentId>,
    tick: u64,
    open_first: Seq<IntervalView>,
    closed_first: Seq<IntervalView>,
    open_second: Seq<IntervalView>,
    closed_second: Seq<IntervalView>,
)
    requires
        forall|c: AlongsideReading| first_order.contains(c) <==> second_order.contains(c),
        tick_observed(open, closed, first_order, bands, transitions, tick, open_first, closed_first),
        tick_observed(open, closed, second_order, bands, transitions, tick, open_second, closed_second),
    ensures
        open_first == open_second,
        closed_first == closed_second,
{
    let p1 = |iv: IntervalView| !read_pair(first_order, interval_key(iv));
    let p2 = |iv: IntervalView| !read_pair(second_order, interval_key(iv));
    assert forall|iv: IntervalView| #[trigger] p1(iv) == p2(iv) by {
        let key = interval_key(iv);
        if read_pair(first_order, key) {
            let k = choose|k: int| 0 <= k < first_order.len() && #[trigger] reading_key(first_order[k]) == key;
            assert(first_order.contains(first_order[k]));
            let l = choose|l: int| 0 <= l < second_order.len() && second_order[l] == first_order[k];
            assert(reading_key(second_order[l]) == key);
        }
        if read_pair(second_order, key) {
            let k = choose|k: int| 0 <= k < second_order.len() && #[trigger] reading_key(second_order[k]) == key;
            assert(second_order.contains(second_order[k]));
            let l = choose|l: int| 0 <= l < first_order.len() && first_order[l] == second_order[k];
            assert(reading_key(first_order[l]) == key);
        }
    }
    assert(p1 =~= p2);
    assert forall|x: IntervalView| open_first.contains(x) <==> open_second.contains(x) by {
        if open_first.contains(x) {
            let i = choose|i: int| 0 <= i < open_first.len() && open_first[i] == x;
            assert(left_by_readings(open, first_order, bands, transitions, tick, open_first[i]));
            let k = choose|k: int| 0 <= k < first_order.len() && #[trigger] reading_outcome(open, first_order[k], bands, transitions, tick) == Some(x);
            assert(first_order.contains(first_order[k]));
            let l = choose|l: int| 0 <= l < second_order.len() && second_order[l] == first_order[k];
            assert(reading_outcome(open, second_order[l], bands, transitions, tick) == Some(x));
        }
        if open_second.contains(x) {
            let i = choose|i: int| 0 <= i < open_second.len() && open_second[i] == x;
            assert(left_by_readings(open, second_order, bands, transitions, tick, open_second[i]));
            let k = choose|k: int| 0 <= k < second_order.len() && #[trigger] reading_outcome(open, second_order[k], bands, transitions, tick) == Some(x);
            assert(second_order.contains(second_order[k]));
            let l = choose|l: int| 0 <= l < first_order.len() && first_order[l] == second_order[k];
            assert(reading_outcome(open, first_order[l], bands, transitions, tick) == Some(x));
        }
    }
    lemma_ascending_unique(open_first, open_second);
}

/// A pair's reading leaves the same interval whichever body it names first:
/// the minimum, its time and relative speed, the tallies, the side, the
/// facility and the evidence are properties of the pair, and the passing and
/// passed roles follow the speeds.
pub proof fn law_pair_order_is_symmetric(
    open: Seq<IntervalView>,
    c: AlongsideReading,
    bands: Seq<ClearanceBand>,
    transitions: Seq<AgentId>,
    tick: u64,
)
    requires
        c.first.agent != c.second.agent,
    ensures
        reading_outcome(open, swapped(c), bands, transitions, tick) == reading_outcome(open, c, bands, transitions, tick),
{
    lemma_canonical_symmetric(c.first.agent, c.second.agent);
    assert(reading_key(swapped(c)) == reading_key(c));
    lemma_participating_symmetric(bands, c.first.mode_template, c.second.mode_template, bands.len() as int);
    let d = swapped(c);
    if has_open(open, reading_key(c)) {
        let iv = open_of(open, reading_key(c));
        assert(observed(iv, d, tick, transitions) =~= observed(iv, c, tick, transitions));
    } else {
        match passing_pair_of(c.first, c.second) {
            Some(pp) => {
                let iv = fresh_interval(
                    pp.0,
                    pp.1,
                    tick,
                    participating_of(bands, c.first.mode_template, c.second.mode_template, bands.len() as int),
                );
                assert(observed(iv, d, tick, transitions) =~= observed(iv, c, tick, transitions));
            },
            None => {},
        }
    }
}

/// A tracker holds at most one open interval per pair, so no pair is ever
/// counted twice while its pass is in progress.
pub proof fn law_one_open_interval_per_pair(t: ClosePassTracker)
    requires
        t.wf(),
    ensures
        forall|i: int, j: int|
            0 <= i < j < t.open_intervals().len() ==> interval_key(#[trigger] t.open_intervals()[i])
                != interval_key(#[trigger] t.open_intervals()[j]),
{
    assert forall|i: int, j: int| 0 <= i < j < t.open_intervals().len() implies interval_key(#[trigger] t.open_intervals()[i])
        != interval_key(#[trigger] t.open_intervals()[j]) by {
        lemma_pair_order(interval_key(t.open_intervals()[i]), interval_key(t.open_intervals()[j]));
    }
}

/// The completed intervals of a tracker are in close order: ascending end
/// tick, then ascending canonical pair.
pub proof fn law_completed_intervals_in_close_order(t: ClosePassTracker)
    requires
        t.wf(),
    ensures
        in_close_order(t.closed_intervals()),
{
}

/// Closing the open intervals a second time records nothing: the first close
/// leaves no interval open.
pub proof fn law_closing_twice_adds_nothing(
    open: Seq<IntervalView>,
    closed: Seq<IntervalView>,
    open_once: Seq<IntervalView>,
    closed_once: Seq<IntervalView>,
    open_twice: Seq<IntervalView>,
    closed_twice: Seq<IntervalView>,
)
    requires
        open_once == Seq::<IntervalView>::empty(),
        closed_once == closed + open,
        open_twice == Seq::<IntervalView>::empty(),
        closed_twice == closed_once + open_once,
    ensures
        closed_twice == closed_once,
        open_twice == open_once,
{
    assert(closed_twice =~= closed_once);
}
/// Nested bands count monotonically: over the same observed ticks, a band
/// whose threshold is at least another's counts at least as many inside
/// ticks, so a wider band is inside at least as long.
pub proof fn law_wider_band_counts_at_least_as_long(
    iv: IntervalView,
    c: AlongsideReading,
    tick: u64,
    transitions: Seq<AgentId>,
    narrow: int,
    wide: int,
)
    requires
        0 <= narrow < iv.bands.len(),
        0 <= wide < iv.bands.len(),
        !bits_nan(iv.bands[narrow].threshold_m.bits),
        !bits_nan(iv.bands[wide].threshold_m.bits),
        bits_le(iv.bands[narrow].threshold_m.bits, iv.bands[wide].threshold_m.bits),
        iv.bands[narrow].ticks_inside <= iv.bands[wide].ticks_inside,
        iv.bands[wide].ticks_inside < u64::MAX,
    ensures
        observed(iv, c, tick, transitions).bands[narrow].ticks_inside <= observed(
            iv,
            c,
            tick,
            transitions,
        ).bands[wide].ticks_inside,
{
    let x = c.clearance_m.bits;
    let a = iv.bands[narrow].threshold_m.bits;
    let b = iv.bands[wide].threshold_m.bits;
    assert(bits_le(x, a) ==> bits_le(x, b)) by (bit_vector)
        requires
            !bits_nan(a),
            !bits_nan(b),
            bits_le(a, b),
    ;
}

/// Whether a body rides a facility whose nominal direction it travels
/// against: a reverse-travelling body (direction `< 0.0`) on a `Forward`
/// facility, or a forward-travelling one (direction `>= 0.0`) on a `Reverse`
/// facility.
pub open spec fn travels_against(nominal: Option<NominalDirection>, direction: Measure) -> bool {
    ||| nominal == Some(NominalDirection::Forward) && bits_lt_zero(direction.bits)
    ||| nominal == Some(NominalDirection::Reverse) && bits_ge_zero(direction.bits)
}

/// An observed tick records opposing evidence when either participant
/// travels against its facility's nominal direction, and boundary evidence
/// when either participant crossed a facility boundary; evidence once
/// recorded stays. The tick ends the interval, and the interval keeps its
/// pair and start.
pub proof fn law_either_participant_gives_evidence(
    iv: IntervalView,
    c: AlongsideReading,
    tick: u64,
    transitions: Seq<AgentId>,
)
    ensures
        observed(iv, c, tick, transitions).entered_opposing == (iv.entered_opposing || travels_against(
            c.first.nominal_direction,
            c.first.direction,
        ) || travels_against(c.second.nominal_direction, c.second.direction)),
        observed(iv, c, tick, transitions).crossed_boundary == (iv.crossed_boundary || transitions.contains(iv.agent)
            || transitions.contains(iv.partner)),
        observed(iv, c, tick, transitions).end_tick == tick,
        observed(iv, c, tick, transitions).agent == iv.agent,
        observed(iv, c, tick, transitions).partner == iv.partner,
        observed(iv, c, tick, transitions).start_tick == iv.start_tick,
{
}

/// The interval's minimum clearance never rises: an observed tick keeps the
/// old minimum or takes the tick's clearance, and takes it exactly when it is
/// strictly lower, with that tick's time.
pub proof fn law_the_minimum_only_falls(iv: IntervalView, c: AlongsideReading, tick: u64, transitions: Seq<AgentId>)
    ensures
        ({
            let after = observed(iv, c, tick, transitions);
            &&& bits_lt(c.clearance_m.bits, iv.min_clearance_m.bits) ==> after.min_clearance_m == c.clearance_m
                && after.min_clearance_time_s == c.time_s
            &&& !bits_lt(c.clearance_m.bits, iv.min_clearance_m.bits) ==> after.min_clearance_m == iv.min_clearance_m
                && after.min_clearance_time_s == iv.min_clearance_time_s
        }),
{
}

/// An observed tick counts toward every band whose threshold its clearance
/// is at or below, and toward no other; a latched facility or side never
/// changes, and a side latched on this tick is the side the passing body
/// lies on relative to the passed one.
pub proof fn law_a_tick_counts_where_it_is_inside_and_latches_once(
    iv: IntervalView,
    c: AlongsideReading,
    tick: u64,
    transitions: Seq<AgentId>,
)
    requires
        forall|i: int| 0 <= i < iv.bands.len() ==> (#[trigger] iv.bands[i]).ticks_inside < u64::MAX,
    ensures
        ({
            let after = observed(iv, c, tick, transitions);
            &&& after.bands.len() == iv.bands.len()
            &&& forall|i: int| 0 <= i < iv.bands.len() ==> {
                &&& (#[trigger] after.bands[i]).band == iv.bands[i].band
                &&& after.bands[i].threshold_m == iv.bands[i].threshold_m
                &&& after.bands[i].ticks_inside == if bits_le(c.clearance_m.bits, iv.bands[i].threshold_m.bits) {
                    iv.bands[i].ticks_inside + 1
                } else {
                    iv.bands[i].ticks_inside as int
                }
            }
            &&& iv.facility is Some ==> after.facility == iv.facility
            &&& iv.side is Some ==> after.side == iv.side
            &&& (iv.side is None && c.first.lateral_m is Some && c.second.lateral_m is Some) ==> {
                let (passing, passed) = if iv.agent == c.first.agent {
                    (c.first.lateral_m->0, c.second.lateral_m->0)
                } else {
                    (c.second.lateral_m->0, c.first.lateral_m->0)
                };
                after.side == Some(if bits_lt(passed.bits, passing.bits) { PassSide::Left } else { PassSide::Right })
            }
        }),
{
    let after = observed(iv, c, tick, transitions);
    assert forall|i: int| 0 <= i < iv.bands.len() implies (#[trigger] after.bands[i]).ticks_inside == if bits_le(
        c.clearance_m.bits,
        iv.bands[i].threshold_m.bits,
    ) {
        iv.bands[i].ticks_inside + 1
    } else {
        iv.bands[i].ticks_inside as int
    } by {
        assert(after.bands[i] == tally_after(iv.bands[i], c.clearance_m));
    }
}

} // verus!
