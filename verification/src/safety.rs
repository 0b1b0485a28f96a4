//! Edge-triggered safety-event observation over one tick's body scan.
//!
//! Each record is edge-triggered on a per-tick predicate, never emitted
//! per-step. The geometry that decides a predicate (the swept clearance of a
//! pair, the swept circle of a body against a region ring, a body's speed at
//! the tick end) is measured outside the library and handed to the monitor as
//! plain facts; the monitor owns the open-state sets and turns every change of
//! membership into exactly one record:
//!
//! - **contact** ([`Event::Collision`], or [`Event::ArticulatedSegmentContact`]
//!   for a pair that involves an articulated chain) and **near miss**
//!   ([`Event::NearMiss`]) are two nested pair predicates: a pair in contact
//!   has no open near miss, so the two open sets never share a pair;
//! - **entry and exit** ([`Event::Entry`], [`Event::Exit`]) of a body and a
//!   region, with the crossing-against-signal [`Event::Violation`] on a
//!   signal-controlled crossing's entry edge;
//! - **queue** ([`Event::Queue`]) and **control transition**
//!   ([`Event::ControlTransition`]) per agent slot.
//!
//! A despawn clears the agent's open pair and region states without a further
//! record, because [`Event::Despawned`] closes the agent's stream; its open
//! queue and control states are closed with their end records, so every
//! formation still has its departure.

use vstd::prelude::*;

use crate::event::{ControlTransitionKind, Event, RegionKey, ViolationKind};
use crate::ids::{AgentId, AgentMode};
use crate::measure::{bits_gt_zero, bits_le_zero, Measure};

verus! {

/// The action a vehicle's recorded signal-compliance decision took.
#[derive(Debug, Clone, Copy, PartialEq, Eq, Hash, Structural)]
pub enum SignalAction {
    /// Proceed past the stop line.
    Proceed,
    /// Hold at the stop line.
    Stop,
}

/// The action a pedestrian's recorded crossing decision took.
#[derive(Debug, Clone, Copy, PartialEq, Eq, Hash, Structural)]
pub enum PedestrianSignalAction {
    /// Cross the crossing.
    Cross,
    /// Wait at the kerb.
    Wait,
}

/// The pedestrian signal state a crossing decision was made under.
#[derive(Debug, Clone, Copy, PartialEq, Eq, Hash, Structural)]
pub enum PedestrianSignalColor {
    /// Crossing is permitted.
    Walk,
    /// Crossing is ending; no new crossing should start.
    FlashingDontWalk,
    /// Crossing is forbidden.
    DontWalk,
}

/// The recorded facts of a pedestrian's crossing decision that the safety
/// pass reads.
#[derive(Debug, Clone, Copy, PartialEq, Eq, Hash, Structural)]
pub struct PedestrianCrossingDecision {
    /// The decided action.
    pub action: PedestrianSignalAction,
    /// The signal the decision was made under.
    pub signal: PedestrianSignalColor,
    /// Remaining gap to the crossing entry in metres; positive while the
    /// pedestrian is still upstream of the decision point.
    pub crossing_gap_m: Measure,
}

/// Which controller state a mode's recorded decision reports.
pub open spec fn control_kind_of(mode: AgentMode) -> ControlTransitionKind {
    match mode {
        AgentMode::Vehicle => ControlTransitionKind::SignalStop,
        AgentMode::Pedestrian => ControlTransitionKind::CrossingWait,
    }
}

/// Which controller state a mode's recorded decision reports.
pub fn control_kind(mode: AgentMode) -> (r: ControlTransitionKind)
    ensures
        r == control_kind_of(mode),
{
    match mode {
        AgentMode::Vehicle => ControlTransitionKind::SignalStop,
        AgentMode::Pedestrian => ControlTransitionKind::CrossingWait,
    }
}

/// Whether a pedestrian's recorded decision was to cross against a forbidding
/// signal while still upstream of the crossing.
pub open spec fn crossing_violation_of(
    mode: AgentMode,
    decision: Option<PedestrianCrossingDecision>,
) -> Option<ViolationKind> {
    match decision {
        Some(d) => if mode == AgentMode::Pedestrian && d.action == PedestrianSignalAction::Cross
            && d.signal == PedestrianSignalColor::DontWalk && bits_gt_zero(d.crossing_gap_m.bits) {
            Some(ViolationKind::CrossedAgainstSignal)
        } else {
            None
        },
        None => None,
    }
}

/// Whether a pedestrian's recorded decision was to cross against a forbidding
/// signal while it was still upstream of the crossing.
///
/// A `Cross` action on a `DontWalk` signal with a positive crossing gap (one
/// that compares `> 0.0`, so neither a zero, a negative value, nor a NaN) is
/// the recorded choice to cross against the signal. Once the pedestrian is
/// past the decision point the recorded gap is zero, so the check holds
/// exactly for the tick the body first reaches the crossing.
pub fn pedestrian_crossing_violation(
    mode: AgentMode,
    decision: Option<PedestrianCrossingDecision>,
) -> (r: Option<ViolationKind>)
    ensures
        r == crossing_violation_of(mode, decision),
{
    if mode != AgentMode::Pedestrian {
        return None;
    }
    let decision = match decision {
        Some(decision) => decision,
        None => return None,
    };
    if decision.action != PedestrianSignalAction::Cross || decision.signal
        != PedestrianSignalColor::DontWalk || !decision.crossing_gap_m.is_positive() {
        return None;
    }
    Some(ViolationKind::CrossedAgainstSignal)
}

/// Whether a slot's recorded decision is to wait: a vehicle holding at a stop
/// line or a pedestrian waiting at a crossing.
pub open spec fn waiting_of(
    mode: AgentMode,
    vehicle_action: Option<SignalAction>,
    pedestrian_action: Option<PedestrianSignalAction>,
) -> bool {
    match mode {
        AgentMode::Vehicle => vehicle_action == Some(SignalAction::Stop),
        AgentMode::Pedestrian => pedestrian_action == Some(PedestrianSignalAction::Wait),
    }
}

/// Whether a slot's recorded decision is to wait.
pub fn waiting_state(
    mode: AgentMode,
    vehicle_action: Option<SignalAction>,
    pedestrian_action: Option<PedestrianSignalAction>,
) -> (r: bool)
    ensures
        r == waiting_of(mode, vehicle_action, pedestrian_action),
{
    match mode {
        AgentMode::Vehicle => match vehicle_action {
            Some(SignalAction::Stop) => true,
            _ => false,
        },
        AgentMode::Pedestrian => match pedestrian_action {
            Some(PedestrianSignalAction::Wait) => true,
            _ => false,
        },
    }
}

/// One candidate pair's measured predicates for this tick.
#[derive(Debug, Clone, Copy, PartialEq, Eq, Hash, Structural)]
pub struct PairReading {
    /// Lower agent id of the pair.
    pub first: AgentId,
    /// Higher agent id of the pair.
    pub second: AgentId,
    /// Whether either side is an articulated chain.
    pub chain: bool,
    /// Whether the pair's signed clearance reached zero during the tick.
    pub contact: bool,
    /// Whether the pair, not in contact, reached the near-miss band.
    pub near: bool,
    /// Signed surface clearance in metres at the tick end.
    pub clearance_m: Measure,
    /// `first`'s touching chain segment, when `first` is a chain.
    pub first_segment: Option<u32>,
    /// `second`'s touching chain segment, when `second` is a chain.
    pub second_segment: Option<u32>,
}

/// The canonical key of a reading's pair.
pub open spec fn pair_of(r: PairReading) -> PairKey {
    PairKey { first: r.first, second: r.second }
}

/// A reading's nested predicates: a pair in contact is never a near miss.
pub open spec fn reading_nested(r: PairReading) -> bool {
    !(r.contact && r.near)
}

/// The contact-edge record of a reading.
pub open spec fn contact_event(r: PairReading, contacting: bool) -> Event {
    if r.chain {
        Event::ArticulatedSegmentContact {
            agent: r.first,
            agent_segment: r.first_segment,
            other: r.second,
            other_segment: r.second_segment,
            clearance_m: r.clearance_m,
            contacting,
        }
    } else {
        Event::Collision { agent: r.first, other: r.second, clearance_m: r.clearance_m, contacting }
    }
}

/// The near-miss-edge record of a reading.
pub open spec fn near_event(r: PairReading, entering: bool) -> Event {
    Event::NearMiss { agent: r.first, other: r.second, clearance_m: r.clearance_m, entering }
}

/// The records one pair emits: its contact edge when contact membership
/// changes, then its near-miss edge when near membership changes.
pub open spec fn pair_edges(was_contact: bool, was_near: bool, r: PairReading) -> Seq<Event> {
    let contact_part = if r.contact != was_contact {
        seq![contact_event(r, r.contact)]
    } else {
        Seq::<Event>::empty()
    };
    let near_part = if r.near != was_near {
        seq![near_event(r, r.near)]
    } else {
        Seq::<Event>::empty()
    };
    contact_part + near_part
}

/// The exec spelling of a reading's contact-edge record.
fn make_contact_event(r: &PairReading, contacting: bool) -> (e: Event)
    ensures
        e == contact_event(*r, contacting),
{
    if r.chain {
        Event::ArticulatedSegmentContact {
            agent: r.first,
            agent_segment: r.first_segment,
            other: r.second,
            other_segment: r.second_segment,
            clearance_m: r.clearance_m,
            contacting,
        }
    } else {
        Event::Collision { agent: r.first, other: r.second, clearance_m: r.clearance_m, contacting }
    }
}

/// A key of an open-state set: a canonical agent pair, or an agent and a
/// region.
pub trait OpenKey: Sized + Copy {
    /// Whether every agent the key names is alive.
    spec fn alive_in(self, alive: Seq<bool>) -> bool;

    /// Exec equality of two keys.
    fn same(&self, other: &Self) -> (r: bool)
        ensures
            r == (*self == *other);

    /// Whether every agent the key names is alive.
    fn is_alive_in(&self, alive: &Vec<bool>) -> (r: bool)
        ensures
            r == self.alive_in(alive@);

    /// The ascending order of keys.
    spec fn before(self, other: Self) -> bool;

    /// The order of keys is a strict total order.
    proof fn lemma_before_is_total(a: Self, b: Self, c: Self)
        ensures
            !a.before(a),
            a.before(b) && b.before(c) ==> a.before(c),
            a != b ==> a.before(b) || b.before(a);

    /// Exec spelling of the key order.
    fn precedes(&self, other: &Self) -> (r: bool)
        ensures
            r == self.before(*other);
}

/// The canonical key of a body pair: the lower agent id first.
#[derive(Debug, Clone, Copy, PartialEq, Eq, Hash, Structural)]
pub struct PairKey {
    /// Lower agent id of the pair.
    pub first: AgentId,
    /// Higher agent id of the pair.
    pub second: AgentId,
}

/// The key of one body's occupancy of one region.
#[derive(Debug, Clone, Copy, PartialEq, Eq, Hash, Structural)]
pub struct RegionVisit {
    /// The occupying body.
    pub agent: AgentId,
    /// The occupied region.
    pub region: RegionKey,
}

impl OpenKey for PairKey {
    open spec fn alive_in(self, alive: Seq<bool>) -> bool {
        slot_alive(alive, self.first) && slot_alive(alive, self.second)
    }

    fn same(&self, other: &Self) -> (r: bool) {
        self.first == other.first && self.second == other.second
    }

    fn is_alive_in(&self, alive: &Vec<bool>) -> (r: bool) {
        self.first.index() < alive.len() && alive[self.first.index()] && self.second.index()
            < alive.len() && alive[self.second.index()]
    }

    open spec fn before(self, other: Self) -> bool {
        self.first.value() < other.first.value() || (self.first.value() == other.first.value()
            && self.second.value() < other.second.value())
    }

    proof fn lemma_before_is_total(a: Self, b: Self, c: Self) {
        if a != b && a.first.value() == b.first.value() && a.second.value() == b.second.value() {
            AgentId::lemma_value_identifies(a.first, b.first);
            AgentId::lemma_value_identifies(a.second, b.second);
        }
    }

    fn precedes(&self, other: &Self) -> (r: bool) {
        self.first.get() < other.first.get() || (self.first.get() == other.first.get() && self.second.get()
            < other.second.get())
    }
}

impl OpenKey for RegionVisit {
    open spec fn alive_in(self, alive: Seq<bool>) -> bool {
        slot_alive(alive, self.agent)
    }

    fn same(&self, other: &Self) -> (r: bool) {
        self.agent == other.agent && self.region == other.region
    }

    fn is_alive_in(&self, alive: &Vec<bool>) -> (r: bool) {
        self.agent.index() < alive.len() && alive[self.agent.index()]
    }

    open spec fn before(self, other: Self) -> bool {
        ||| self.agent.value() < other.agent.value()
        ||| self.agent.value() == other.agent.value() && self.region.space() < other.region.space()
        ||| self.agent.value() == other.agent.value() && self.region.space() == other.region.space()
            && self.region.dense() < other.region.dense()
    }

    proof fn lemma_before_is_total(a: Self, b: Self, c: Self) {
        if a != b && a.agent.value() == b.agent.value() && a.region.space() == b.region.space()
            && a.region.dense() == b.region.dense() {
            AgentId::lemma_value_identifies(a.agent, b.agent);
            RegionKey::lemma_space_and_dense_identify(a.region, b.region);
        }
    }

    fn precedes(&self, other: &Self) -> (r: bool) {
        let (a, b) = (self.agent.get(), other.agent.get());
        let (sa, sb) = (self.region.tag(), other.region.tag());
        a < b || (a == b && sa < sb) || (a == b && sa == sb && self.region.get() < other.region.get())
    }
}

/// An open-state set without repeats.
///
/// Its keys are the library's own pair and region-visit structs. The
/// contracts vstd gives std's ordered set hold only for a key type whose
/// ordering Verus can rely on, which an ordering `derive` wrote does not give,
/// so the set is a vector that holds no key twice, kept ascending by the
/// keys' own order: agent ids first, as the ordered set would walk them.
pub struct OpenSet<K> {
    pairs: Vec<K>,
}

impl<K: OpenKey> OpenSet<K> {
    /// The pairs in the set.
    pub closed spec fn members(&self) -> Seq<K> {
        self.pairs@
    }

    /// The set holds no pair twice, and holds its pairs ascending.
    pub closed spec fn wf(&self) -> bool {
        &&& self.pairs@.no_duplicates()
        &&& forall|i: int, j: int| 0 <= i < j < self.pairs@.len() ==> (#[trigger] self.pairs@[i]).before(#[trigger] self.pairs@[j])
    }

    /// The pairs of a well-formed set are ascending.
    pub proof fn lemma_ascending(&self)
        requires
            self.wf(),
        ensures
            forall|i: int, j: int| 0 <= i < j < self.members().len() ==> (#[trigger] self.members()[i]).before(
                #[trigger] self.members()[j],
            ),
    {
    }

    /// The empty set.
    pub fn new() -> (r: OpenSet<K>)
        ensures
            r.wf(),
            r.members() == Seq::<K>::empty(),
    {
        OpenSet { pairs: Vec::new() }
    }

    /// Number of open pairs.
    pub fn len(&self) -> (r: usize)
        ensures
            r == self.members().len(),
    {
        self.pairs.len()
    }

    /// A copy of the keys, in ascending order.
    pub fn to_vec(&self) -> (r: Vec<K>)
        ensures
            r@ == self.members(),
    {
        let mut out: Vec<K> = Vec::new();
        let mut i: usize = 0;
        while i < self.pairs.len()
            invariant
                i <= self.pairs@.len(),
                out@ == self.pairs@.subrange(0, i as int),
            decreases self.pairs.len() - i,
        {
            out.push(self.pairs[i]);
            proof {
                assert(out@ =~= self.pairs@.subrange(0, i + 1));
            }
            i = i + 1;
        }
        proof {
            assert(self.pairs@.subrange(0, self.pairs@.len() as int) =~= self.pairs@);
        }
        out
    }

    /// Whether the set holds no pair.
    pub fn is_empty(&self) -> (r: bool)
        ensures
            r == (self.members().len() == 0),
    {
        self.pairs.len() == 0
    }

    /// Position of a pair in the set, if present.
    fn position(&self, pair: K) -> (r: Option<usize>)
        ensures
            match r {
                Some(i) => i < self.members().len() && self.members()[i as int] == pair,
                None => !self.members().contains(pair),
            },
    {
        let mut i: usize = 0;
        while i < self.pairs.len()
            invariant
                i <= self.pairs@.len(),
                forall|j: int| 0 <= j < i ==> self.pairs@[j] != pair,
            decreases self.pairs.len() - i,
        {
            if self.pairs[i].same(&pair) {
                return Some(i);
            }
            i = i + 1;
        }
        None
    }

    /// Whether the set holds a pair.
    pub fn contains(&self, pair: K) -> (r: bool)
        ensures
            r == self.members().contains(pair),
    {
        self.position(pair).is_some()
    }

    /// Add a pair the set does not hold, at its place in ascending order.
    fn insert(&mut self, pair: K)
        requires
            old(self).wf(),
            !old(self).members().contains(pair),
        ensures
            final(self).wf(),
            forall|p: K| #[trigger] final(self).members().contains(p) <==> (old(self).members().contains(p) || p == pair),
    {
        let mut at: usize = 0;
        while at < self.pairs.len() && self.pairs[at].precedes(&pair)
            invariant
                at <= self.pairs@.len(),
                forall|i: int| 0 <= i < at ==> (#[trigger] self.pairs@[i]).before(pair),
            decreases self.pairs.len() - at,
        {
            at = at + 1;
        }
        let ghost before = self.pairs@;
        proof {
            assert forall|i: int| at <= i < before.len() implies pair.before(#[trigger] before[i]) by {
                K::lemma_before_is_total(before[at as int], before[i], pair);
                K::lemma_before_is_total(pair, before[at as int], before[i]);
                K::lemma_before_is_total(before[i], pair, pair);
                if i > at {
                    assert(before[at as int].before(before[i]));
                }
                assert(before[i] != pair) by {
                    assert(!old(self).members().contains(pair));
                    assert(old(self).members()[i] == before[i]);
                }
                assert(!before[at as int].before(pair));
            }
        }
        self.pairs.insert(at, pair);
        proof {
            let after = self.pairs@;
            assert forall|i: int| 0 <= i < after.len() implies #[trigger] after[i] == (if i < at {
                before[i]
            } else if i == at {
                pair
            } else {
                before[i - 1]
            }) by {}
            assert forall|i: int, j: int| 0 <= i < j < after.len() implies (#[trigger] after[i]).before(#[trigger] after[j]) by {
                let bi = if i < at { i } else { i - 1 };
                let bj = if j < at { j } else { j - 1 };
                if i != at && j != at {
                    assert(bi < bj);
                    assert(before[bi].before(before[bj]));
                } else if i == at {
                    assert(at <= bj);
                } else {
                    assert(bi < at);
                }
            }
            assert forall|i: int, j: int| 0 <= i < j < after.len() implies after[i] != after[j] by {
                assert(after[i].before(after[j]));
                K::lemma_before_is_total(after[i], after[j], after[j]);
            }
            assert forall|p: K| #[trigger] after.contains(p) <==> (before.contains(p) || p == pair) by {
                if after.contains(p) {
                    let k = choose|k: int| 0 <= k < after.len() && after[k] == p;
                    if k < at {
                        assert(before[k] == p);
                    } else if k > at {
                        assert(before[k - 1] == p);
                    }
                }
                if before.contains(p) {
                    let k = choose|k: int| 0 <= k < before.len() && before[k] == p;
                    if k < at {
                        assert(after[k] == p);
                    } else {
                        assert(after[k + 1] == p);
                    }
                }
                if p == pair {
                    assert(after[at as int] == p);
                }
            }
        }
    }

    /// Remove a pair, if present.
    fn remove(&mut self, pair: K)
        requires
            old(self).wf(),
        ensures
            final(self).wf(),
            forall|p: K| #[trigger] final(self).members().contains(p) <==> (old(self).members().contains(p) && p != pair),
    {
        match self.position(pair) {
            Some(i) => {
                let ghost before = self.pairs@;
                self.pairs.remove(i);
                proof {
                    assert forall|p: K| #[trigger] self.pairs@.contains(p) <==> (before.contains(p) && p != pair) by {
                        if self.pairs@.contains(p) {
                            let k = choose|k: int| 0 <= k < self.pairs@.len() && self.pairs@[k] == p;
                            if k < i {
                                assert(before[k] == p);
                            } else {
                                assert(before[k + 1] == p);
                            }
                        }
                        if before.contains(p) && p != pair {
                            let k = choose|k: int| 0 <= k < before.len() && before[k] == p;
                            if k < i {
                                assert(self.pairs@[k] == p);
                            } else {
                                assert(self.pairs@[k - 1] == p);
                            }
                        }
                    }
                    assert forall|a: int, b: int|
                        0 <= a < b < self.pairs@.len() implies self.pairs@[a] != self.pairs@[b] by {
                        let a0 = if a < i { a } else { a + 1 };
                        let b0 = if b < i { b } else { b + 1 };
                        assert(self.pairs@[a] == before[a0]);
                        assert(self.pairs@[b] == before[b0]);
                    }
                }
            },
            None => {},
        }
    }

    /// Keep only the pairs whose two agents are both alive.
    fn retain_alive(&mut self, alive: &Vec<bool>)
        requires
            old(self).wf(),
        ensures
            final(self).wf(),
            forall|p: K| #[trigger] final(self).members().contains(p) <==> (old(self).members().contains(p)
                && p.alive_in(alive@)),
    {
        broadcast use vstd::seq_lib::lemma_seq_contains_after_push;

        let mut kept: Vec<K> = Vec::new();
        let mut i: usize = 0;
        while i < self.pairs.len()
            invariant
                i <= self.pairs@.len(),
                self.pairs@.no_duplicates(),
                forall|a: int, b: int| 0 <= a < b < self.pairs@.len() ==> (#[trigger] self.pairs@[a]).before(#[trigger] self.pairs@[b]),
                kept@.no_duplicates(),
                forall|a: int, b: int| 0 <= a < b < kept@.len() ==> (#[trigger] kept@[a]).before(#[trigger] kept@[b]),
                forall|p: K| #[trigger] kept@.contains(p) <==> (self.pairs@.subrange(0, i as int).contains(p)
                    && p.alive_in(alive@)),
            decreases self.pairs.len() - i,
        {
            let pair = self.pairs[i];
            let ghost before = kept@;
            proof {
                assert(self.pairs@.subrange(0, i + 1) =~= self.pairs@.subrange(0, i as int).push(pair));
                assert(!self.pairs@.subrange(0, i as int).contains(pair)) by {
                    if self.pairs@.subrange(0, i as int).contains(pair) {
                        let k = choose|k: int| 0 <= k < i && self.pairs@.subrange(0, i as int)[k] == pair;
                        assert(self.pairs@[k] == self.pairs@[i as int]);
                    }
                }
            }
            let keep = pair.is_alive_in(alive);
            if keep {
                kept.push(pair);
                proof {
                    assert(!before.contains(pair));
                    assert forall|a: int, b: int| 0 <= a < b < kept@.len() implies kept@[a] != kept@[b] by {
                        if b == kept@.len() - 1 {
                            assert(before.contains(kept@[a]));
                        }
                    }
                    assert forall|a: int, b: int| 0 <= a < b < kept@.len() implies (#[trigger] kept@[a]).before(#[trigger] kept@[b]) by {
                        if b == kept@.len() - 1 {
                            assert(kept@[a] == before[a]);
                            assert(before.contains(before[a]));
                            assert(self.pairs@.subrange(0, i as int).contains(before[a]));
                            let k = choose|k: int| 0 <= k < i && self.pairs@.subrange(0, i as int)[k] == before[a];
                            assert(self.pairs@[k] == before[a]);
                            assert(self.pairs@[k].before(self.pairs@[i as int]));
                        } else {
                            assert(kept@[a] == before[a] && kept@[b] == before[b]);
                        }
                    }
                }
            }
            proof {
                assert forall|p: K| #[trigger] kept@.contains(p) <==> (self.pairs@.subrange(0, i + 1).contains(p)
                    && p.alive_in(alive@)) by {
                    vstd::seq_lib::lemma_seq_contains_after_push(self.pairs@.subrange(0, i as int), pair, p);
                    vstd::seq_lib::lemma_seq_contains_after_push(before, pair, p);
                }
            }
            i = i + 1;
        }
        proof {
            assert(self.pairs@.subrange(0, self.pairs@.len() as int) =~= self.pairs@);
        }
        self.pairs = kept;
    }
}

/// Whether keys stand in strictly ascending order.
pub open spec fn ascending_keys<K: OpenKey>(s: Seq<K>) -> bool {
    forall|i: int, j: int| 0 <= i < j < s.len() ==> (#[trigger] s[i]).before(#[trigger] s[j])
}

/// Keeping some of an ascending sequence's keys keeps them ascending.
proof fn lemma_filter_ascending<K: OpenKey>(s: Seq<K>, pred: spec_fn(K) -> bool)
    requires
        ascending_keys(s),
    ensures
        ascending_keys(s.filter(pred)),
        forall|i: int| 0 <= i < s.filter(pred).len() ==> s.contains(#[trigger] s.filter(pred)[i]),
    decreases s.len(),
{
    reveal(Seq::filter);
    if s.len() > 0 {
        let rest = s.drop_last();
        assert(ascending_keys(rest)) by {
            assert forall|i: int, j: int| 0 <= i < j < rest.len() implies (#[trigger] rest[i]).before(#[trigger] rest[j]) by {
                assert(rest[i] == s[i] && rest[j] == s[j]);
            }
        }
        lemma_filter_ascending(rest, pred);
        let sub = rest.filter(pred);
        let f = s.filter(pred);
        assert forall|i: int| 0 <= i < sub.len() implies s.contains(#[trigger] sub[i]) by {
            assert(rest.contains(sub[i]));
            let k = choose|k: int| 0 <= k < rest.len() && rest[k] == sub[i];
            assert(s[k] == sub[i]);
        }
        if pred(s.last()) {
            assert(f == sub.push(s.last()));
            assert forall|i: int, j: int| 0 <= i < j < f.len() implies (#[trigger] f[i]).before(#[trigger] f[j]) by {
                assert(f[i] == sub[i]);
                if j < sub.len() {
                    assert(f[j] == sub[j]);
                } else {
                    assert(rest.contains(sub[i]));
                    let k = choose|k: int| 0 <= k < rest.len() && rest[k] == sub[i];
                    assert(s[k] == sub[i]);
                    assert(s[k].before(s[s.len() - 1]));
                }
            }
            assert forall|i: int| 0 <= i < f.len() implies s.contains(#[trigger] f[i]) by {
                if i < sub.len() {
                    assert(f[i] == sub[i]);
                } else {
                    assert(f[i] == s[s.len() - 1]);
                }
            }
        } else {
            assert(f == sub);
        }
    }
}

/// Whether the slot an agent names is alive.
pub open spec fn slot_alive(alive: Seq<bool>, agent: AgentId) -> bool {
    agent.value() < alive.len() && alive[agent.value() as int]
}

/// One agent slot's tick-end facts that the state and region scans read.
#[derive(Debug, Clone, Copy, PartialEq, Eq, Hash, Structural)]
pub struct SlotFacts {
    /// Whether the slot holds a live agent.
    pub alive: bool,
    /// The slot's mode.
    pub mode: AgentMode,
    /// Whether the agent's longitudinal speed at the tick end is at or below
    /// the queue standstill threshold.
    pub stopped: bool,
    /// The action of the vehicle's recorded signal-compliance decision.
    pub vehicle_action: Option<SignalAction>,
    /// The pedestrian's recorded crossing decision.
    pub pedestrian_decision: Option<PedestrianCrossingDecision>,
}

/// The action of a pedestrian decision, if any.
pub open spec fn pedestrian_action_of(d: Option<PedestrianCrossingDecision>) -> Option<PedestrianSignalAction> {
    match d {
        Some(d) => Some(d.action),
        None => None,
    }
}

/// Whether a slot's recorded decision is to wait.
pub open spec fn slot_waiting(f: SlotFacts) -> bool {
    waiting_of(f.mode, f.vehicle_action, pedestrian_action_of(f.pedestrian_decision))
}

/// The queue and control records of one slot, given its open states.
pub open spec fn slot_state_edges(f: SlotFacts, was_queueing: bool, was_waiting: bool, index: int) -> Seq<Event> {
    let agent = AgentId::at(index);
    let control = control_kind_of(f.mode);
    if !f.alive {
        (if was_queueing { seq![Event::Queue { agent, joined: false }] } else { Seq::<Event>::empty() })
            + (if was_waiting {
            seq![Event::ControlTransition { agent, control, active: false }]
        } else {
            Seq::<Event>::empty()
        })
    } else {
        (if f.stopped != was_queueing {
            seq![Event::Queue { agent, joined: f.stopped }]
        } else {
            Seq::<Event>::empty()
        }) + (if slot_waiting(f) != was_waiting {
            seq![Event::ControlTransition { agent, control, active: slot_waiting(f) }]
        } else {
            Seq::<Event>::empty()
        })
    }
}

/// The queue and control records of the first `n` slots, in slot order.
pub open spec fn state_edges(slots: Seq<SlotFacts>, queueing: Seq<bool>, waiting: Seq<bool>, n: int) -> Seq<Event>
    decreases n,
{
    if n <= 0 {
        Seq::<Event>::empty()
    } else {
        state_edges(slots, queueing, waiting, n - 1) + slot_state_edges(
            slots[n - 1],
            queueing[n - 1],
            waiting[n - 1],
            n - 1,
        )
    }
}

/// A slot's open queue state after a scan.
pub open spec fn next_queueing(f: SlotFacts) -> bool {
    f.alive && f.stopped
}

/// A slot's open control state after a scan.
pub open spec fn next_waiting(f: SlotFacts) -> bool {
    f.alive && slot_waiting(f)
}

/// The entry and exit records of one slot for one region, given its open
/// occupancy.
pub open spec fn slot_region_edges(
    f: SlotFacts,
    inside: bool,
    was_inside: bool,
    region: RegionKey,
    signal_controlled: bool,
    index: int,
) -> Seq<Event> {
    let agent = AgentId::at(index);
    if !f.alive || inside == was_inside {
        Seq::<Event>::empty()
    } else if inside {
        seq![Event::Entry { agent, region }] + match crossing_violation_of(f.mode, f.pedestrian_decision) {
            Some(kind) => if signal_controlled {
                seq![Event::Violation { agent, kind }]
            } else {
                Seq::<Event>::empty()
            },
            None => Seq::<Event>::empty(),
        }
    } else {
        seq![Event::Exit { agent, region }]
    }
}

/// The entry and exit records of the first `n` slots for one region, in slot
/// order, against the monitor's open occupancy before the scan.
pub open spec fn region_edges(
    monitor: SafetyMonitor,
    slots: Seq<SlotFacts>,
    inside: Seq<bool>,
    region: RegionKey,
    signal_controlled: bool,
    n: int,
) -> Seq<Event>
    decreases n,
{
    if n <= 0 {
        Seq::<Event>::empty()
    } else {
        region_edges(monitor, slots, inside, region, signal_controlled, n - 1) + slot_region_edges(
            slots[n - 1],
            inside[n - 1],
            monitor.occupies(RegionVisit { agent: AgentId::at(n - 1), region }),
            region,
            signal_controlled,
            n - 1,
        )
    }
}

/// A flag column resized to `n` slots: truncated, or extended with `false`.
pub open spec fn resized(flags: Seq<bool>, n: int) -> Seq<bool> {
    Seq::new(n as nat, |i: int| i < flags.len() && flags[i])
}

/// Resize a flag column to `n` slots, truncating or extending with `false`.
fn resize_flags(flags: &mut Vec<bool>, n: usize)
    ensures
        final(flags)@ == resized(old(flags)@, n as int),
{
    if flags.len() >= n {
        while flags.len() > n
            invariant
                flags@ == old(flags)@.subrange(0, flags@.len() as int),
                n <= flags@.len() <= old(flags)@.len(),
            decreases flags.len(),
        {
            flags.pop();
        }
    } else {
        while flags.len() < n
            invariant
                old(flags)@.len() <= flags@.len() <= n,
                forall|i: int| 0 <= i < flags@.len() ==> flags@[i] == (i < old(flags)@.len() && old(flags)@[i]),
            decreases n - flags.len(),
        {
            flags.push(false);
        }
    }
    proof {
        assert(flags@ =~= resized(old(flags)@, n as int));
    }
}

/// The open safety states of one run and the edge records their changes emit.
///
/// A pair is in at most one of the contact and near-miss sets, and every
/// change of a pair's, a region visit's, or a slot's state emits exactly one
/// record whose flag is the new state.
pub struct SafetyMonitor {
    contact: OpenSet<PairKey>,
    near: OpenSet<PairKey>,
    occupied: OpenSet<RegionVisit>,
    queueing: Vec<bool>,
    waiting: Vec<bool>,
}

impl SafetyMonitor {
    /// The monitor's open states are consistent: no set repeats a key, no
    /// pair is both in contact and inside the near-miss band, and both slot
    /// columns cover the same slots.
    pub closed spec fn wf(&self) -> bool {
        &&& self.contact.wf()
        &&& self.near.wf()
        &&& self.occupied.wf()
        &&& forall|p: PairKey| !(#[trigger] self.contact.members().contains(p) && self.near.members().contains(p))
        &&& self.queueing@.len() == self.waiting@.len()
    }

    /// Whether a pair is currently in contact.
    pub closed spec fn in_contact(&self, p: PairKey) -> bool {
        self.contact.members().contains(p)
    }

    /// Whether a pair is currently inside the near-miss band.
    pub closed spec fn in_near_miss(&self, p: PairKey) -> bool {
        self.near.members().contains(p)
    }

    /// Whether a body currently occupies a region.
    pub closed spec fn occupies(&self, v: RegionVisit) -> bool {
        self.occupied.members().contains(v)
    }

    /// The open queue state of every tracked slot.
    pub closed spec fn queue_states(&self) -> Seq<bool> {
        self.queueing@
    }

    /// The open control state of every tracked slot.
    pub closed spec fn control_states(&self) -> Seq<bool> {
        self.waiting@
    }

    /// The open pairs of a well-formed monitor stand in ascending order.
    pub proof fn lemma_open_pairs_ascending(&self)
        requires
            self.wf(),
        ensures
            ascending_keys(self.contact_pairs()),
            ascending_keys(self.near_pairs()),
    {
    }

    /// The pairs currently in contact.
    pub closed spec fn contact_pairs(&self) -> Seq<PairKey> {
        self.contact.members()
    }

    /// The pairs currently inside the near-miss band.
    pub closed spec fn near_pairs(&self) -> Seq<PairKey> {
        self.near.members()
    }

    /// A monitor with no open state.
    pub fn new() -> (r: SafetyMonitor)
        ensures
            r.wf(),
            forall|p: PairKey| !r.in_contact(p) && !r.in_near_miss(p),
            forall|v: RegionVisit| !r.occupies(v),
            r.queue_states().len() == 0,
            r.control_states().len() == 0,
    {
        SafetyMonitor {
            contact: OpenSet::new(),
            near: OpenSet::new(),
            occupied: OpenSet::new(),
            queueing: Vec::new(),
            waiting: Vec::new(),
        }
    }

    /// Whether no pair is open in either pair family.
    pub fn pairs_closed(&self) -> (r: bool)
        ensures
            r == (forall|p: PairKey| !self.in_contact(p) && !self.in_near_miss(p)),
    {
        let r = self.contact.is_empty() && self.near.is_empty();
        proof {
            if !r {
                if self.contact.members().len() > 0 {
                    assert(self.in_contact(self.contact.members()[0]));
                } else {
                    assert(self.in_near_miss(self.near.members()[0]));
                }
            }
        }
        r
    }

    /// The open queue state of one slot; `false` for an untracked slot.
    pub fn queue_state(&self, agent: AgentId) -> (r: bool)
        ensures
            r == (agent.value() < self.queue_states().len() && self.queue_states()[agent.value() as int]),
    {
        agent.index() < self.queueing.len() && self.queueing[agent.index()]
    }

    /// The open control state of one slot; `false` for an untracked slot.
    pub fn control_state(&self, agent: AgentId) -> (r: bool)
        ensures
            r == (agent.value() < self.control_states().len() && self.control_states()[agent.value() as int]),
    {
        agent.index() < self.waiting.len() && self.waiting[agent.index()]
    }

    /// Drop the open pair and region state of every dead slot without a
    /// record, and track every slot of the store.
    ///
    /// [`Event::Despawned`] closes the agent's stream, so a pair or region that
    /// a despawn ends needs no separate end record. The queue and control
    /// states are per-agent states with a departure record, and
    /// [`Self::scan_states`] closes them.
    pub fn forget_dead(&mut self, alive: &Vec<bool>)
        requires
            old(self).wf(),
        ensures
            final(self).wf(),
            forall|p: PairKey| #[trigger] final(self).in_contact(p) <==> (old(self).in_contact(p) && p.alive_in(alive@)),
            forall|p: PairKey| #[trigger] final(self).in_near_miss(p) <==> (old(self).in_near_miss(p) && p.alive_in(alive@)),
            forall|v: RegionVisit| #[trigger] final(self).occupies(v) <==> (old(self).occupies(v) && v.alive_in(alive@)),
            final(self).queue_states() == old(self).queue_states(),
            final(self).control_states() == old(self).control_states(),
    {
        self.contact.retain_alive(alive);
        self.near.retain_alive(alive);
        self.occupied.retain_alive(alive);
        proof {
            assert forall|p: PairKey| !(#[trigger] self.contact.members().contains(p) && self.near.members().contains(p)) by {
                assert(!(old(self).contact.members().contains(p) && old(self).near.members().contains(p)));
            }
        }
    }

    /// Emit the contact and near-miss edges of one observed pair.
    ///
    /// The contact edge comes first: the tick that begins a contact also ends
    /// the pair's near miss, and the tick that ends one may begin it again.
    pub fn scan_pair(&mut self, reading: PairReading, events: &mut Vec<Event>)
        requires
            old(self).wf(),
            reading_nested(reading),
        ensures
            final(self).wf(),
            final(events)@ == old(events)@ + pair_edges(
                old(self).in_contact(pair_of(reading)),
                old(self).in_near_miss(pair_of(reading)),
                reading,
            ),
            final(self).in_contact(pair_of(reading)) == reading.contact,
            final(self).in_near_miss(pair_of(reading)) == reading.near,
            forall|q: PairKey| q != pair_of(reading) ==> (#[trigger] final(self).in_contact(q) == old(self).in_contact(q)
                && final(self).in_near_miss(q) == old(self).in_near_miss(q)),
            forall|v: RegionVisit| #[trigger] final(self).occupies(v) == old(self).occupies(v),
            final(self).queue_states() == old(self).queue_states(),
            final(self).control_states() == old(self).control_states(),
    {
        let key = PairKey { first: reading.first, second: reading.second };
        let ghost before_contact = self.contact.members();
        let ghost before_near = self.near.members();
        let was_contact = self.contact.contains(key);
        if reading.contact != was_contact {
            if reading.contact {
                self.contact.insert(key);
            } else {
                self.contact.remove(key);
            }
            events.push(make_contact_event(&reading, reading.contact));
        }
        let ghost mid_events = events@;
        let was_near = self.near.contains(key);
        if reading.near != was_near {
            if reading.near {
                self.near.insert(key);
            } else {
                self.near.remove(key);
            }
            events.push(Event::NearMiss {
                agent: reading.first,
                other: reading.second,
                clearance_m: reading.clearance_m,
                entering: reading.near,
            });
        }
        proof {
            broadcast use vstd::seq_lib::lemma_seq_contains_after_push;

            assert forall|q: PairKey| #[trigger] self.contact.members().contains(q) == (if q == key {
                reading.contact
            } else {
                before_contact.contains(q)
            }) by {
                if reading.contact != was_contact && reading.contact {
                    vstd::seq_lib::lemma_seq_contains_after_push(before_contact, key, q);
                }
            }
            assert forall|q: PairKey| #[trigger] self.near.members().contains(q) == (if q == key {
                reading.near
            } else {
                before_near.contains(q)
            }) by {
                if reading.near != was_near && reading.near {
                    vstd::seq_lib::lemma_seq_contains_after_push(before_near, key, q);
                }
            }
            assert forall|p: PairKey| !(#[trigger] self.contact.members().contains(p) && self.near.members().contains(p)) by {
                assert(!(before_contact.contains(p) && before_near.contains(p)));
            }
            let edges = pair_edges(was_contact, was_near, reading);
            assert(events@ =~= old(events)@ + edges);
        }
    }

    /// The open pairs this tick's candidate set no longer holds: the stale
    /// contacts first, then the stale near misses, each in ascending order.
    ///
    /// A pair inside a reporting band is always a candidate, so this is a
    /// completeness guard: no open state can outlive the candidate window
    /// without its end record ([`Self::close_stale`]).
    pub fn stale_pairs(&self, candidates: &Vec<PairKey>) -> (r: Vec<PairKey>)
        requires
            self.wf(),
        ensures
            r@ == self.contact_pairs().filter(|p: PairKey| !candidates@.contains(p)) + self.near_pairs().filter(
                |p: PairKey| !candidates@.contains(p),
            ),
            ascending_keys(self.contact_pairs().filter(|p: PairKey| !candidates@.contains(p))),
            ascending_keys(self.near_pairs().filter(|p: PairKey| !candidates@.contains(p))),
    {
        proof {
            lemma_filter_ascending(self.contact_pairs(), |p: PairKey| !candidates@.contains(p));
            lemma_filter_ascending(self.near_pairs(), |p: PairKey| !candidates@.contains(p));
        }
        let mut stale: Vec<PairKey> = Vec::new();
        let contact = self.contact.to_vec();
        let near = self.near.to_vec();
        let ghost not_candidate = |p: PairKey| !candidates@.contains(p);
        let mut i: usize = 0;
        while i < contact.len()
            invariant
                i <= contact@.len(),
                contact@ == self.contact_pairs(),
                stale@ == contact@.subrange(0, i as int).filter(not_candidate),
                not_candidate == (|p: PairKey| !candidates@.contains(p)),
            decreases contact.len() - i,
        {
            let pair = contact[i];
            proof {
                assert(contact@.subrange(0, i + 1) =~= contact@.subrange(0, i as int).push(pair));
                contact@.subrange(0, i as int).lemma_filter_push(pair, not_candidate);
            }
            if !key_listed(candidates, pair) {
                stale.push(pair);
            }
            i = i + 1;
        }
        proof {
            assert(contact@.subrange(0, contact@.len() as int) =~= contact@);
        }
        let ghost contact_part = stale@;
        let mut j: usize = 0;
        while j < near.len()
            invariant
                j <= near@.len(),
                near@ == self.near_pairs(),
                contact@ == self.contact_pairs(),
                contact_part == contact@.filter(not_candidate),
                stale@ == contact_part + near@.subrange(0, j as int).filter(not_candidate),
                not_candidate == (|p: PairKey| !candidates@.contains(p)),
            decreases near.len() - j,
        {
            let pair = near[j];
            proof {
                assert(near@.subrange(0, j + 1) =~= near@.subrange(0, j as int).push(pair));
                near@.subrange(0, j as int).lemma_filter_push(pair, not_candidate);
            }
            if !key_listed(candidates, pair) {
                stale.push(pair);
            }
            j = j + 1;
        }
        proof {
            assert(contact@.subrange(0, contact@.len() as int) =~= contact@);
            assert(near@.subrange(0, near@.len() as int) =~= near@);
        }
        stale
    }

    /// Close the open state of pairs no longer in this tick's candidate set,
    /// each with its end record: a pair still in contact reports its contact
    /// end, then a pair still in the near-miss band its band end, each once.
    ///
    /// Each reading names one stale pair and carries its tick-end clearance;
    /// its predicates are ignored, because a pair outside the candidate window
    /// is outside both bands.
    #[verifier::spinoff_prover]
    #[verifier::rlimit(50)]
    pub fn close_stale(&mut self, readings: &Vec<PairReading>, events: &mut Vec<Event>)
        requires
            old(self).wf(),
        ensures
            final(self).wf(),
            forall|i: int| #![trigger readings@[i]] 0 <= i < readings@.len() ==> !final(self).in_contact(pair_of(readings@[i]))
                && !final(self).in_near_miss(pair_of(readings@[i])),
            forall|q: PairKey| unlisted(readings@, readings@.len() as int, q) ==> (
                #[trigger] final(self).in_contact(q) == old(self).in_contact(q) && final(self).in_near_miss(q)
                    == old(self).in_near_miss(q)),
            forall|v: RegionVisit| #[trigger] final(self).occupies(v) == old(self).occupies(v),
            final(self).queue_states() == old(self).queue_states(),
            final(self).control_states() == old(self).control_states(),
            final(events)@ == old(events)@ + stale_edges(*old(self), readings@, readings@.len() as int),
            forall|k: int| old(events)@.len() <= k < final(events)@.len() ==> !event_begins(#[trigger] final(events)@[k]),
    {
        let mut i: usize = 0;
        while i < readings.len()
            invariant
                self.wf(),
                i <= readings@.len(),
                forall|k: int| #![trigger readings@[k]] 0 <= k < i ==> !self.in_contact(pair_of(readings@[k]))
                    && !self.in_near_miss(pair_of(readings@[k])),
                forall|q: PairKey| unlisted(readings@, i as int, q) ==> (
                    #[trigger] self.in_contact(q) == old(self).in_contact(q) && self.in_near_miss(q)
                        == old(self).in_near_miss(q)),
                forall|v: RegionVisit| #[trigger] self.occupies(v) == old(self).occupies(v),
                self.queue_states() == old(self).queue_states(),
                self.control_states() == old(self).control_states(),
                events@ == old(events)@ + stale_edges(*old(self), readings@, i as int),
                forall|k: int| old(events)@.len() <= k < events@.len() ==> !event_begins(#[trigger] events@[k]),
            decreases readings.len() - i,
        {
            let closing = PairReading { contact: false, near: false, ..readings[i] };
            let ghost before = events@;
            let ghost was_contact = self.in_contact(pair_of(closing));
            let ghost was_near = self.in_near_miss(pair_of(closing));
            let ghost mid = *self;
            proof {
                let p = pair_of(readings@[i as int]);
                if !unlisted(readings@, i as int, p) {
                    let k = choose|k: int| 0 <= k < i && pair_of(#[trigger] readings@[k]) == p;
                    assert(!self.in_contact(pair_of(readings@[k])));
                }
                assert(was_contact == (old(self).in_contact(p) && unlisted(readings@, i as int, p)));
                assert(was_near == (old(self).in_near_miss(p) && unlisted(readings@, i as int, p)));
            }
            self.scan_pair(closing, events);
            proof {
                assert(pair_of(closing) == pair_of(readings@[i as int]));
                assert(events@ =~= old(events)@ + stale_edges(*old(self), readings@, i + 1));
                let edges = pair_edges(was_contact, was_near, closing);
                assert forall|k: int| 0 <= k < edges.len() implies !event_begins(#[trigger] edges[k]) by {
                }
                assert forall|k: int| old(events)@.len() <= k < events@.len() implies !event_begins(#[trigger] events@[k]) by {
                    if k >= before.len() {
                        assert(events@[k] == edges[k - before.len()]);
                    }
                }
                assert forall|k: int| #![trigger readings@[k]] 0 <= k < i + 1 implies !self.in_contact(pair_of(readings@[k]))
                    && !self.in_near_miss(pair_of(readings@[k])) by {
                    if pair_of(readings@[k]) != pair_of(closing) {
                        assert(k < i);
                        assert(!mid.in_contact(pair_of(readings@[k])));
                        assert(!mid.in_near_miss(pair_of(readings@[k])));
                        assert(self.in_contact(pair_of(readings@[k])) == mid.in_contact(pair_of(readings@[k])));
                        assert(self.in_near_miss(pair_of(readings@[k])) == mid.in_near_miss(pair_of(readings@[k])));
                    }
                }
                assert forall|q: PairKey| unlisted(readings@, i + 1, q) implies (
                    #[trigger] self.in_contact(q) == old(self).in_contact(q) && self.in_near_miss(q)
                        == old(self).in_near_miss(q)) by {
                    assert(q != pair_of(readings@[i as int]));
                    assert(unlisted(readings@, i as int, q));
                    assert(mid.in_contact(q) == old(self).in_contact(q));
                    assert(mid.in_near_miss(q) == old(self).in_near_miss(q));
                    assert(q != pair_of(closing));
                    assert(self.in_contact(q) == mid.in_contact(q));
                    assert(self.in_near_miss(q) == mid.in_near_miss(q));
                }
            }
            i = i + 1;
        }
    }

    /// Emit the queue and control-transition edges of every slot.
    ///
    /// The columns are first resized to the store's slots. A dead slot closes
    /// its open queue and control states with their end records; a live slot's
    /// queue state is its tick-end standstill and its control state is its
    /// recorded decision to wait, each reported once per change.
    pub fn scan_states(&mut self, slots: &Vec<SlotFacts>, events: &mut Vec<Event>)
        requires
            old(self).wf(),
            slots@.len() <= u32::MAX,
        ensures
            final(self).wf(),
            final(events)@ == old(events)@ + state_edges(
                slots@,
                resized(old(self).queue_states(), slots@.len() as int),
                resized(old(self).control_states(), slots@.len() as int),
                slots@.len() as int,
            ),
            final(self).queue_states() == Seq::new(slots@.len(), |i: int| next_queueing(slots@[i])),
            final(self).control_states() == Seq::new(slots@.len(), |i: int| next_waiting(slots@[i])),
            forall|p: PairKey| #[trigger] final(self).in_contact(p) == old(self).in_contact(p),
            forall|p: PairKey| #[trigger] final(self).in_near_miss(p) == old(self).in_near_miss(p),
            forall|v: RegionVisit| #[trigger] final(self).occupies(v) == old(self).occupies(v),
    {
        let n = slots.len();
        resize_flags(&mut self.queueing, n);
        resize_flags(&mut self.waiting, n);
        let ghost queueing0 = self.queueing@;
        let ghost waiting0 = self.waiting@;
        let ghost events0 = events@;
        let mut index: usize = 0;
        while index < n
            invariant
                n == slots@.len(),
                n <= u32::MAX,
                index <= n,
                queueing0 == resized(old(self).queue_states(), n as int),
                waiting0 == resized(old(self).control_states(), n as int),
                self.queueing@.len() == n,
                self.waiting@.len() == n,
                forall|i: int| 0 <= i < index ==> self.queueing@[i] == next_queueing(slots@[i]),
                forall|i: int| 0 <= i < index ==> self.waiting@[i] == next_waiting(slots@[i]),
                forall|i: int| index <= i < n ==> self.queueing@[i] == queueing0[i],
                forall|i: int| index <= i < n ==> self.waiting@[i] == waiting0[i],
                events@ == events0 + state_edges(slots@, queueing0, waiting0, index as int),
                self.contact == old(self).contact,
                self.near == old(self).near,
                self.occupied == old(self).occupied,
            decreases n - index,
        {
            let facts = slots[index];
            let agent = AgentId::from_index(index);
            let control = control_kind(facts.mode);
            let was_queueing = self.queueing[index];
            let was_waiting = self.waiting[index];
            let ghost before = events@;
            if !facts.alive {
                if was_queueing {
                    self.queueing.set(index, false);
                    events.push(Event::Queue { agent, joined: false });
                }
                if was_waiting {
                    self.waiting.set(index, false);
                    events.push(Event::ControlTransition { agent, control, active: false });
                }
            } else {
                let stopped = facts.stopped;
                if stopped != was_queueing {
                    self.queueing.set(index, stopped);
                    events.push(Event::Queue { agent, joined: stopped });
                }
                let pedestrian_action = match facts.pedestrian_decision {
                    Some(decision) => Some(decision.action),
                    None => None,
                };
                let waiting = waiting_state(facts.mode, facts.vehicle_action, pedestrian_action);
                if waiting != was_waiting {
                    self.waiting.set(index, waiting);
                    events.push(Event::ControlTransition { agent, control, active: waiting });
                }
            }
            proof {
                let edges = slot_state_edges(facts, queueing0[index as int], waiting0[index as int], index as int);
                assert(events@ =~= before + edges);
                assert(state_edges(slots@, queueing0, waiting0, index + 1) =~= state_edges(
                    slots@,
                    queueing0,
                    waiting0,
                    index as int,
                ) + edges);
            }
            index = index + 1;
        }
        proof {
            assert(self.queueing@ =~= Seq::new(slots@.len(), |i: int| next_queueing(slots@[i])));
            assert(self.waiting@ =~= Seq::new(slots@.len(), |i: int| next_waiting(slots@[i])));
        }
    }

    /// Emit the entry and exit edges of one region.
    ///
    /// `inside` is each slot's measured occupancy: its tick-swept extent
    /// reaching the region. A signal-controlled crossing additionally records
    /// a pedestrian's crossing against a forbidding signal on its entry edge,
    /// from the decision the kernel recorded for this tick.
    pub fn scan_region(
        &mut self,
        slots: &Vec<SlotFacts>,
        inside: &Vec<bool>,
        region: RegionKey,
        signal_controlled: bool,
        events: &mut Vec<Event>,
    )
        requires
            old(self).wf(),
            slots@.len() <= u32::MAX,
            inside@.len() == slots@.len(),
        ensures
            final(self).wf(),
            final(events)@ == old(events)@ + region_edges(
                *old(self),
                slots@,
                inside@,
                region,
                signal_controlled,
                slots@.len() as int,
            ),
            forall|i: int| 0 <= i < slots@.len() && slots@[i].alive ==> final(self).occupies(
                RegionVisit { agent: #[trigger] AgentId::at(i), region },
            ) == inside@[i],
            forall|v: RegionVisit| (v.region != region || v.agent.value() >= slots@.len() || !slots@[v.agent.value() as int].alive)
                ==> #[trigger] final(self).occupies(v) == old(self).occupies(v),
            forall|p: PairKey| #[trigger] final(self).in_contact(p) == old(self).in_contact(p),
            forall|p: PairKey| #[trigger] final(self).in_near_miss(p) == old(self).in_near_miss(p),
            final(self).queue_states() == old(self).queue_states(),
            final(self).control_states() == old(self).control_states(),
    {
        broadcast use AgentId::lemma_at_value;

        let n = slots.len();
        let ghost events0 = events@;
        let ghost monitor0 = *old(self);
        let mut index: usize = 0;
        while index < n
            invariant
                n == slots@.len(),
                n <= u32::MAX,
                inside@.len() == n,
                index <= n,
                monitor0 == *old(self),
                self.wf(),
                events@ == events0 + region_edges(monitor0, slots@, inside@, region, signal_controlled, index as int),
                forall|i: int| 0 <= i < index && slots@[i].alive ==> self.occupies(
                    RegionVisit { agent: #[trigger] AgentId::at(i), region },
                ) == inside@[i],
                forall|v: RegionVisit| (v.region != region || v.agent.value() >= index || !slots@[v.agent.value() as int].alive)
                    ==> #[trigger] self.occupies(v) == monitor0.occupies(v),
                self.contact == old(self).contact,
                self.near == old(self).near,
                self.queueing == old(self).queueing,
                self.waiting == old(self).waiting,
            decreases n - index,
        {
            let facts = slots[index];
            let agent = AgentId::from_index(index);
            let key = RegionVisit { agent, region };
            let ghost before = events@;
            let ghost occupied_before = self.occupied.members();
            let ghost start = *self;
            let ghost was = self.occupies(key);
            proof {
                assert(was == monitor0.occupies(key));
            }
            if facts.alive {
                let now_inside = inside[index];
                let was_inside = self.occupied.contains(key);
                if now_inside != was_inside {
                    if now_inside {
                        self.occupied.insert(key);
                        events.push(Event::Entry { agent, region });
                        if signal_controlled {
                            match pedestrian_crossing_violation(facts.mode, facts.pedestrian_decision) {
                                Some(kind) => events.push(Event::Violation { agent, kind }),
                                None => {},
                            }
                        }
                    } else {
                        self.occupied.remove(key);
                        events.push(Event::Exit { agent, region });
                    }
                }
            }
            proof {
                broadcast use vstd::seq_lib::lemma_seq_contains_after_push;

                let edges = slot_region_edges(facts, inside@[index as int], was, region, signal_controlled, index as int);
                assert(events@ =~= before + edges);
                assert(region_edges(monitor0, slots@, inside@, region, signal_controlled, index + 1) =~= region_edges(
                    monitor0,
                    slots@,
                    inside@,
                    region,
                    signal_controlled,
                    index as int,
                ) + edges);
                assert forall|v: RegionVisit| v != key implies #[trigger] self.occupied.members().contains(v)
                    == occupied_before.contains(v) by {
                    vstd::seq_lib::lemma_seq_contains_after_push(occupied_before, key, v);
                }
                assert forall|v: RegionVisit| (v.region != region || v.agent.value() >= index + 1 || !slots@[v.agent.value() as int].alive)
                    implies #[trigger] self.occupies(v) == monitor0.occupies(v) by {
                    AgentId::lemma_at_value(index as int);
                    if v.region == region && v.agent.value() == index {
                        AgentId::lemma_value_identifies(v.agent, key.agent);
                    }
                    if v != key {
                        assert(self.occupied.members().contains(v) == occupied_before.contains(v));
                        assert(start.occupies(v) == monitor0.occupies(v));
                    }
                    if v == key {
                        assert(!facts.alive);
                    }
                }
                assert forall|i: int| 0 <= i < index + 1 && slots@[i].alive implies self.occupies(
                    RegionVisit { agent: #[trigger] AgentId::at(i), region },
                ) == inside@[i] by {
                    if i == index {
                        vstd::seq_lib::lemma_seq_contains_after_push(occupied_before, key, key);
                    } else {
                        AgentId::lemma_at_value(i);
                        AgentId::lemma_at_value(index as int);
                        assert(AgentId::at(i).value() != AgentId::at(index as int).value());
                    }
                }
            }
            index = index + 1;
        }
    }
}

/// Whether no reading among the first `n` names the pair `q`.
pub open spec fn unlisted(readings: Seq<PairReading>, n: int, q: PairKey) -> bool {
    forall|k: int| 0 <= k < n ==> q != #[trigger] pair_of(readings[k])
}

/// A stale pair's closing reading: outside both bands.
pub open spec fn closing_of(r: PairReading) -> PairReading {
    PairReading { contact: false, near: false, ..r }
}

/// The end records of the first `n` stale pairs: a pair reports the states
/// it still held, unless an earlier reading already closed them.
pub open spec fn stale_edges(monitor: SafetyMonitor, readings: Seq<PairReading>, n: int) -> Seq<Event>
    decreases n,
{
    if n <= 0 {
        Seq::<Event>::empty()
    } else {
        let p = pair_of(readings[n - 1]);
        stale_edges(monitor, readings, n - 1) + pair_edges(
            monitor.in_contact(p) && unlisted(readings, n - 1, p),
            monitor.in_near_miss(p) && unlisted(readings, n - 1, p),
            closing_of(readings[n - 1]),
        )
    }
}

/// Whether a record opens a state: a contact or near miss that begins.
pub open spec fn event_begins(e: Event) -> bool {
    match e {
        Event::Collision { contacting, .. } => contacting,
        Event::ArticulatedSegmentContact { contacting, .. } => contacting,
        Event::NearMiss { entering, .. } => entering,
        _ => false,
    }
}

/// Whether a pair key is listed.
fn key_listed(keys: &Vec<PairKey>, key: PairKey) -> (r: bool)
    ensures
        r == keys@.contains(key),
{
    let mut i: usize = 0;
    while i < keys.len()
        invariant
            i <= keys@.len(),
            forall|j: int| 0 <= j < i ==> keys@[j] != key,
        decreases keys.len() - i,
    {
        if keys[i].first == key.first && keys[i].second == key.second {
            return true;
        }
        i = i + 1;
    }
    false
}

/// A pair's edges alternate: every reported contact or near-miss edge turns
/// the pair's recorded state to its own value, so after a pair's contact (or
/// band) begins, the next edge of that state the pair reports is its end.
pub proof fn law_pair_edges_alternate(was_contact: bool, was_near: bool, first: PairReading, second: PairReading)
    requires
        pair_of(first) == pair_of(second),
    ensures
        pair_edges(was_contact, was_near, first).contains(contact_event(first, true)) && pair_edges(
            first.contact,
            first.near,
            second,
        ).contains(contact_event(second, second.contact)) ==> !second.contact,
        pair_edges(was_contact, was_near, first).contains(near_event(first, true)) && pair_edges(
            first.contact,
            first.near,
            second,
        ).contains(near_event(second, second.near)) ==> !second.near,
{
    let e1 = pair_edges(was_contact, was_near, first);
    let e2 = pair_edges(first.contact, first.near, second);
    if e1.contains(contact_event(first, true)) && e2.contains(contact_event(second, second.contact)) {
        let k = choose|k: int| 0 <= k < e1.len() && e1[k] == contact_event(first, true);
        let l = choose|l: int| 0 <= l < e2.len() && e2[l] == contact_event(second, second.contact);
        assert(first.contact);
        assert(second.contact != first.contact);
    }
    if e1.contains(near_event(first, true)) && e2.contains(near_event(second, second.near)) {
        let k = choose|k: int| 0 <= k < e1.len() && e1[k] == near_event(first, true);
        let l = choose|l: int| 0 <= l < e2.len() && e2[l] == near_event(second, second.near);
        assert(first.near);
        assert(second.near != first.near);
    }
}

/// The flags a run of steps reports for one state: step `k` reports
/// `Some(b)` when it emitted a record turning the state to `b`, and `None`
/// when it emitted none.
pub open spec fn reported(steps: Seq<Option<bool>>, n: int) -> Seq<bool>
    decreases n,
{
    if n <= 0 {
        Seq::empty()
    } else {
        match steps[n - 1] {
            Some(b) => reported(steps, n - 1).push(b),
            None => reported(steps, n - 1),
        }
    }
}

/// Whether a step reports its state's change: one record whose flag is the
/// new state exactly when the state changed, and none when it did not.
pub open spec fn edge_step(before: bool, after: bool, edge: Option<bool>) -> bool {
    match edge {
        Some(b) => b == after && after != before,
        None => after == before,
    }
}

/// The flag of the first contact record of a batch, if it has one.
pub open spec fn contact_edge(events: Seq<Event>) -> Option<bool>
    decreases events.len(),
{
    if events.len() == 0 {
        None
    } else {
        match events[0] {
            Event::Collision { contacting, .. } => Some(contacting),
            Event::ArticulatedSegmentContact { contacting, .. } => Some(contacting),
            _ => contact_edge(events.drop_first()),
        }
    }
}

/// The flag of the first near-miss record of a batch, if it has one.
pub open spec fn near_edge(events: Seq<Event>) -> Option<bool>
    decreases events.len(),
{
    if events.len() == 0 {
        None
    } else {
        match events[0] {
            Event::NearMiss { entering, .. } => Some(entering),
            _ => near_edge(events.drop_first()),
        }
    }
}

/// The flag of the first queue record of a batch, if it has one.
pub open spec fn queue_edge(events: Seq<Event>) -> Option<bool>
    decreases events.len(),
{
    if events.len() == 0 {
        None
    } else {
        match events[0] {
            Event::Queue { joined, .. } => Some(joined),
            _ => queue_edge(events.drop_first()),
        }
    }
}

/// The flag of the first control-transition record of a batch, if it has
/// one.
pub open spec fn control_edge(events: Seq<Event>) -> Option<bool>
    decreases events.len(),
{
    if events.len() == 0 {
        None
    } else {
        match events[0] {
            Event::ControlTransition { active, .. } => Some(active),
            _ => control_edge(events.drop_first()),
        }
    }
}

/// The occupancy the first entry (`true`) or exit (`false`) record of a batch
/// reports, if it has one.
pub open spec fn region_edge(events: Seq<Event>) -> Option<bool>
    decreases events.len(),
{
    if events.len() == 0 {
        None
    } else {
        match events[0] {
            Event::Entry { .. } => Some(true),
            Event::Exit { .. } => Some(false),
            _ => region_edge(events.drop_first()),
        }
    }
}

/// The last state a run of reporting steps reaches.
proof fn lemma_reported_tracks_state(states: Seq<bool>, steps: Seq<Option<bool>>, n: int)
    requires
        0 <= n <= steps.len(),
        states.len() == steps.len() + 1,
        forall|k: int| 0 <= k < steps.len() ==> edge_step(states[k], states[k + 1], #[trigger] steps[k]),
    ensures
        reported(steps, n).len() == 0 ==> states[n] == states[0],
        reported(steps, n).len() > 0 ==> reported(steps, n).last() == states[n] && reported(steps, n)[0] != states[0],
        forall|i: int| 0 < i < reported(steps, n).len() ==> #[trigger] reported(steps, n)[i] != reported(steps, n)[i - 1],
    decreases n,
{
    if n > 0 {
        lemma_reported_tracks_state(states, steps, n - 1);
        let rest = reported(steps, n - 1);
        assert(edge_step(states[n - 1], states[n], steps[n - 1]));
        match steps[n - 1] {
            Some(b) => {
                let cur = rest.push(b);
                assert(reported(steps, n) == cur);
                assert forall|i: int| 0 < i < cur.len() implies #[trigger] cur[i] != cur[i - 1] by {
                    if i < rest.len() {
                        assert(cur[i] == rest[i] && cur[i - 1] == rest[i - 1]);
                    } else {
                        assert(cur[i - 1] == rest.last() || rest.len() == 0);
                    }
                }
                if rest.len() > 0 {
                    assert(cur[0] == rest[0]);
                }
            },
            None => {},
        }
    }
}

/// The edges of one open state alternate across any run of monitor calls
/// that report each change of that state with one record: the first reported
/// edge turns the state away from where it began, every later one undoes the
/// one before it (a contact ends before it begins again, an agent exits a
/// region before it enters it again, a queue or control state ends before it
/// begins again), and the last one is the state the run ends in.
///
/// `states` are the state before each call and after the last one, and
/// `steps` the edge each call reported for it. [`SafetyMonitor::scan_pair`],
/// [`SafetyMonitor::close_stale`] (one closing scan per stale pair),
/// [`SafetyMonitor::scan_states`], and [`SafetyMonitor::scan_region`] are
/// such calls, by `law_pair_scan_reports_each_change_once`,
/// `law_slot_scan_reports_each_change_once`, and
/// `law_region_scan_reports_each_change_once`;
/// [`SafetyMonitor::forget_dead`] reports nothing and changes only the states
/// of dead agents, whose stream their despawn record has closed.
pub proof fn law_edges_alternate_across_ticks(states: Seq<bool>, steps: Seq<Option<bool>>)
    requires
        states.len() == steps.len() + 1,
        forall|k: int| 0 <= k < steps.len() ==> edge_step(states[k], states[k + 1], #[trigger] steps[k]),
    ensures
        ({
            let r = reported(steps, steps.len() as int);
            &&& r.len() > 0 ==> r[0] != states[0] && r.last() == states.last()
            &&& r.len() == 0 ==> states.last() == states[0]
            &&& forall|i: int| 0 < i < r.len() ==> #[trigger] r[i] != r[i - 1]
        }),
{
    lemma_reported_tracks_state(states, steps, steps.len() as int);
}

/// One pair's scan reports each change of its contact and near-miss states
/// with one record whose flag is the new state, and no record otherwise.
/// [`SafetyMonitor::scan_pair`] appends exactly these records and leaves the
/// pair's states at the reading's predicates; [`SafetyMonitor::close_stale`]
/// is one such scan per stale pair with both predicates cleared.
pub proof fn law_pair_scan_reports_each_change_once(was_contact: bool, was_near: bool, r: PairReading)
    ensures
        edge_step(was_contact, r.contact, contact_edge(pair_edges(was_contact, was_near, r))),
        edge_step(was_near, r.near, near_edge(pair_edges(was_contact, was_near, r))),
{
    let e = pair_edges(was_contact, was_near, r);
    reveal_with_fuel(contact_edge, 3);
    reveal_with_fuel(near_edge, 3);
    if r.contact != was_contact {
        if r.near != was_near {
            assert(e.drop_first() =~= seq![near_event(r, r.near)]);
            assert(seq![near_event(r, r.near)].drop_first() =~= Seq::<Event>::empty());
        } else {
            assert(e.drop_first() =~= Seq::<Event>::empty());
        }
    } else if r.near != was_near {
        assert(e =~= seq![near_event(r, r.near)]);
        assert(e.drop_first() =~= Seq::<Event>::empty());
    } else {
        assert(e =~= Seq::<Event>::empty());
    }
}

/// One slot's state scan reports each change of its queue and control states
/// with one record whose flag is the new state, and no record otherwise; a
/// dead slot's states close. [`SafetyMonitor::scan_states`] appends these
/// records slot by slot and leaves each slot at `next_queueing` and
/// `next_waiting`.
pub proof fn law_slot_scan_reports_each_change_once(f: SlotFacts, was_queueing: bool, was_waiting: bool, index: int)
    ensures
        edge_step(was_queueing, next_queueing(f), queue_edge(slot_state_edges(f, was_queueing, was_waiting, index))),
        edge_step(was_waiting, next_waiting(f), control_edge(slot_state_edges(f, was_queueing, was_waiting, index))),
{
    let e = slot_state_edges(f, was_queueing, was_waiting, index);
    let agent = AgentId::at(index);
    let control = control_kind_of(f.mode);
    reveal_with_fuel(queue_edge, 3);
    reveal_with_fuel(control_edge, 3);
    let q = if !f.alive { was_queueing } else { f.stopped != was_queueing };
    let w = if !f.alive { was_waiting } else { slot_waiting(f) != was_waiting };
    let qe = Event::Queue { agent, joined: next_queueing(f) };
    let ce = Event::ControlTransition { agent, control, active: next_waiting(f) };
    if q && w {
        assert(e =~= seq![qe, ce]);
        assert(e.drop_first() =~= seq![ce]);
        assert(seq![ce].drop_first() =~= Seq::<Event>::empty());
    } else if q {
        assert(e =~= seq![qe]);
        assert(e.drop_first() =~= Seq::<Event>::empty());
    } else if w {
        assert(e =~= seq![ce]);
        assert(e.drop_first() =~= Seq::<Event>::empty());
    } else {
        assert(e =~= Seq::<Event>::empty());
    }
}

/// One slot's region scan reports each change of its occupancy with one
/// entry or exit record, and no record otherwise; a dead slot's occupancy is
/// left to its despawn. [`SafetyMonitor::scan_region`] appends these records
/// slot by slot and leaves a live slot's occupancy at its measured one.
pub proof fn law_region_scan_reports_each_change_once(
    f: SlotFacts,
    inside: bool,
    was_inside: bool,
    region: RegionKey,
    signal_controlled: bool,
    index: int,
)
    ensures
        edge_step(
            was_inside,
            if f.alive { inside } else { was_inside },
            region_edge(slot_region_edges(f, inside, was_inside, region, signal_controlled, index)),
        ),
{
    let e = slot_region_edges(f, inside, was_inside, region, signal_controlled, index);
    reveal_with_fuel(region_edge, 2);
    if f.alive && inside != was_inside {
        assert(e.len() > 0);
    } else {
        assert(e =~= Seq::<Event>::empty());
    }
}

} // verus!
