//! Hitch-limit edge detection for an articulated chain.
//!
//! Every trailing segment of a chain hitches to the segment ahead of it, and
//! the chain's sampled articulation limit bounds the relative angle of every
//! hitch. After each tick's pose integration the monitor is handed each
//! hitch's relative angle (already wrapped into `[0, π]`) and reports only the
//! edges: a hitch that just exceeded the limit, or one that just returned
//! inside it. A hitch that stays on one side of the limit reports nothing, so
//! one excursion beyond the limit yields exactly one rising and one falling
//! edge.

use vstd::prelude::*;

use crate::event::Event;
use crate::ids::AgentId;
use crate::measure::{bits_lt, Measure};

verus! {

/// One hitch's exceeded-limit state edge.
///
/// `hitch_index` is the trailing segment's own index in the chain: `1` for the
/// hitch between the lead and the first trailer, and so on.
#[derive(Debug, Clone, Copy, PartialEq, Eq, Hash, Structural)]
pub struct HitchLimitTransition {
    /// The trailing segment's index in the chain.
    pub hitch_index: u32,
    /// The hitch's relative angle in radians.
    pub angle_rad: Measure,
    /// The chain's articulation limit in radians.
    pub limit_rad: Measure,
    /// `true` when the angle just exceeded the limit, `false` when it just
    /// returned inside it.
    pub exceeding: bool,
}

/// Whether a hitch angle exceeds the limit: it compares strictly greater.
pub open spec fn exceeds(angle: Measure, limit: Measure) -> bool {
    bits_lt(limit.bits, angle.bits)
}

/// The edge of hitch position `i` (the trailer at chain index `i + 1`) for a
/// given angle.
pub open spec fn edge_at(i: int, angle: Measure, limit: Measure) -> HitchLimitTransition {
    HitchLimitTransition {
        hitch_index: (i + 1) as u32,
        angle_rad: angle,
        limit_rad: limit,
        exceeding: exceeds(angle, limit),
    }
}

/// The edges of the first `n` hitches, in chain order: one for every hitch
/// whose exceeded state differs from the one it had.
pub open spec fn hitch_edges(was: Seq<bool>, angles: Seq<Measure>, limit: Measure, n: int) -> Seq<
    HitchLimitTransition,
>
    decreases n,
{
    if n <= 0 {
        Seq::<HitchLimitTransition>::empty()
    } else {
        let rest = hitch_edges(was, angles, limit, n - 1);
        if exceeds(angles[n - 1], limit) != was[n - 1] {
            rest.push(edge_at(n - 1, angles[n - 1], limit))
        } else {
            rest
        }
    }
}

/// The exceeded state of every hitch after a check.
pub open spec fn exceeded_states(angles: Seq<Measure>, limit: Measure) -> Seq<bool> {
    Seq::new(angles.len(), |i: int| exceeds(angles[i], limit))
}

/// Per-chain hitch-limit state: the chain's limit and each hitch's exceeded
/// state as of the last check.
#[derive(Debug)]
pub struct HitchMonitor {
    limit_rad: Measure,
    exceeding: Vec<bool>,
}

impl HitchMonitor {
    /// The chain's articulation limit.
    pub closed spec fn limit(&self) -> Measure {
        self.limit_rad
    }

    /// Each hitch's exceeded state as of the last check, in chain order.
    pub closed spec fn states(&self) -> Seq<bool> {
        self.exceeding@
    }

    /// A monitor for a chain with `hitches` hitches, all inside the limit.
    pub fn new(hitches: usize, limit_rad: Measure) -> (r: HitchMonitor)
        ensures
            r.limit() == limit_rad,
            r.states() == Seq::new(hitches as nat, |i: int| false),
    {
        let mut exceeding: Vec<bool> = Vec::new();
        let mut i: usize = 0;
        while i < hitches
            invariant
                i <= hitches,
                exceeding@ == Seq::new(i as nat, |j: int| false),
            decreases hitches - i,
        {
            exceeding.push(false);
            proof {
                assert(exceeding@ =~= Seq::new((i + 1) as nat, |j: int| false));
            }
            i = i + 1;
        }
        HitchMonitor { limit_rad, exceeding }
    }

    /// The number of hitches the monitor tracks.
    pub fn hitch_count(&self) -> (r: usize)
        ensures
            r == self.states().len(),
    {
        self.exceeding.len()
    }

    /// Check every hitch's relative angle, in chain order, against the limit:
    /// record each hitch's new exceeded state and report the hitches whose
    /// state changed, in chain order.
    pub fn check(&mut self, angles: &Vec<Measure>) -> (r: Vec<HitchLimitTransition>)
        requires
            angles@.len() == old(self).states().len(),
            angles@.len() < u32::MAX,
        ensures
            final(self).limit() == old(self).limit(),
            final(self).states() == exceeded_states(angles@, old(self).limit()),
            r@ == hitch_edges(old(self).states(), angles@, old(self).limit(), angles@.len() as int),
    {
        let ghost was = self.exceeding@;
        let mut out: Vec<HitchLimitTransition> = Vec::new();
        let mut i: usize = 0;
        while i < angles.len()
            invariant
                i <= angles@.len(),
                angles@.len() == was.len(),
                angles@.len() < u32::MAX,
                self.limit_rad == old(self).limit_rad,
                self.exceeding@.len() == was.len(),
                forall|j: int| 0 <= j < i ==> self.exceeding@[j] == exceeds(angles@[j], self.limit_rad),
                forall|j: int| i <= j < was.len() ==> self.exceeding@[j] == was[j],
                out@ == hitch_edges(was, angles@, self.limit_rad, i as int),
            decreases angles.len() - i,
        {
            let is_exceeding = self.limit_rad.less_than(angles[i]);
            if is_exceeding != self.exceeding[i] {
                out.push(
                    HitchLimitTransition {
                        hitch_index: (i + 1) as u32,
                        angle_rad: angles[i],
                        limit_rad: self.limit_rad,
                        exceeding: is_exceeding,
                    },
                );
            }
            self.exceeding.set(i, is_exceeding);
            i = i + 1;
        }
        proof {
            assert(self.exceeding@ =~= exceeded_states(angles@, self.limit_rad));
        }
        out
    }
}

/// Every body shape of one agent's own segments, numbered in chain order:
/// the lead's own body as segment `0`, then each trailer's as the segment
/// after the one it hitches to. A non-chain agent has exactly one.
pub fn agent_segments<S: Copy>(lead: S, trailers: &Vec<S>) -> (r: Vec<(u32, S)>)
    requires
        trailers@.len() < u32::MAX,
    ensures
        r@.len() == trailers@.len() + 1,
        r@[0] == (0u32, lead),
        forall|k: int| 0 <= k < trailers@.len() ==> #[trigger] r@[k + 1] == ((k + 1) as u32, trailers@[k]),
{
    let mut shapes: Vec<(u32, S)> = Vec::new();
    shapes.push((0, lead));
    let mut k: usize = 0;
    while k < trailers.len()
        invariant
            k <= trailers@.len(),
            trailers@.len() < u32::MAX,
            shapes@.len() == k + 1,
            shapes@[0] == (0u32, lead),
            forall|j: int| 0 <= j < k ==> #[trigger] shapes@[j + 1] == ((j + 1) as u32, trailers@[j]),
        decreases trailers.len() - k,
    {
        shapes.push(((k + 1) as u32, trailers[k]));
        k = k + 1;
    }
    shapes
}

/// The event record of one hitch edge of an agent's chain.
pub fn limit_event(agent: AgentId, t: &HitchLimitTransition) -> (r: Event)
    ensures
        r == (Event::ArticulationLimitExceeded {
            agent,
            hitch_index: t.hitch_index,
            angle_rad: t.angle_rad,
            limit_rad: t.limit_rad,
            exceeding: t.exceeding,
        }),
{
    Event::ArticulationLimitExceeded {
        agent,
        hitch_index: t.hitch_index,
        angle_rad: t.angle_rad,
        limit_rad: t.limit_rad,
        exceeding: t.exceeding,
    }
}

/// The reported edges are exactly the hitches whose state changed: every
/// edge names a hitch whose previous state was the opposite of the edge, and
/// every hitch whose state changed reports its edge.
pub proof fn lemma_hitch_edges_members(was: Seq<bool>, angles: Seq<Measure>, limit: Measure, n: int)
    requires
        0 <= n <= angles.len(),
        n <= was.len(),
        n < u32::MAX,
    ensures
        forall|t: HitchLimitTransition|
            hitch_edges(was, angles, limit, n).contains(t) <==> exists|i: int|
                0 <= i < n && exceeds(angles[i], limit) != was[i] && #[trigger] edge_at(i, angles[i], limit) == t,
    decreases n,
{
    if n > 0 {
        lemma_hitch_edges_members(was, angles, limit, n - 1);
        let rest = hitch_edges(was, angles, limit, n - 1);
        let e = edge_at(n - 1, angles[n - 1], limit);
        assert forall|t: HitchLimitTransition|
            hitch_edges(was, angles, limit, n).contains(t) <==> exists|i: int|
                0 <= i < n && exceeds(angles[i], limit) != was[i] && #[trigger] edge_at(i, angles[i], limit) == t by {
            if exceeds(angles[n - 1], limit) != was[n - 1] {
                if rest.push(e).contains(t) {
                    let m = choose|m: int| 0 <= m < rest.push(e).len() && rest.push(e)[m] == t;
                    if m < rest.len() {
                        assert(rest.contains(t));
                    }
                }
                if exists|i: int| 0 <= i < n && exceeds(angles[i], limit) != was[i] && #[trigger] edge_at(i, angles[i], limit) == t {
                    let i = choose|i: int| 0 <= i < n && exceeds(angles[i], limit) != was[i] && #[trigger] edge_at(i, angles[i], limit) == t;
                    if i < n - 1 {
                        assert(rest.contains(t));
                        let m = choose|m: int| 0 <= m < rest.len() && rest[m] == t;
                        assert(rest.push(e)[m] == t);
                    } else {
                        assert(rest.push(e)[rest.len() as int] == t);
                    }
                }
            } else {
                if exists|i: int| 0 <= i < n && exceeds(angles[i], limit) != was[i] && #[trigger] edge_at(i, angles[i], limit) == t {
                    let i = choose|i: int| 0 <= i < n && exceeds(angles[i], limit) != was[i] && #[trigger] edge_at(i, angles[i], limit) == t;
                    assert(i < n - 1);
                }
            }
        }
    }
}

/// Successive edges of one hitch alternate: after a check reports a hitch's
/// edge, the next check can only report the opposite edge for it, and a
/// hitch that stays on one side of the limit reports none.
pub proof fn law_hitch_edges_alternate(
    was: Seq<bool>,
    first: Seq<Measure>,
    second: Seq<Measure>,
    limit: Measure,
    i: int,
)
    requires
        first.len() == was.len(),
        second.len() == was.len(),
        was.len() < u32::MAX,
        0 <= i < was.len(),
        hitch_edges(was, first, limit, was.len() as int).contains(edge_at(i, first[i], limit)),
    ensures
        exceeds(first[i], limit) != was[i],
        hitch_edges(exceeded_states(first, limit), second, limit, was.len() as int).contains(edge_at(i, second[i], limit))
            <==> exceeds(second[i], limit) == !exceeds(first[i], limit),
{
    let n = was.len() as int;
    let states = exceeded_states(first, limit);
    lemma_hitch_edges_members(was, first, limit, n);
    lemma_hitch_edges_members(states, second, limit, n);
    let t = edge_at(i, first[i], limit);
    let j = choose|j: int| 0 <= j < n && exceeds(first[j], limit) != was[j] && #[trigger] edge_at(j, first[j], limit) == t;
    assert((j + 1) as u32 == (i + 1) as u32);
    assert(j == i);
    let u = edge_at(i, second[i], limit);
    if hitch_edges(states, second, limit, n).contains(u) {
        let k = choose|k: int| 0 <= k < n && exceeds(second[k], limit) != states[k] && #[trigger] edge_at(k, second[k], limit) == u;
        assert((k + 1) as u32 == (i + 1) as u32);
        assert(k == i);
    }
    if exceeds(second[i], limit) == !exceeds(first[i], limit) {
        assert(exceeds(second[i], limit) != states[i]);
    }
}

} // verus!
