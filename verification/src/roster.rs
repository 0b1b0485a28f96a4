//! Per-slot passes over the agent roster: the announcement of the initial
//! population on the first step, and the monotone waypoint cursor of a
//! pedestrian's route.

use vstd::prelude::*;

use crate::event::{subject, Event};
use crate::ids::{AgentId, AgentMode, PathId};
use crate::measure::{bits_le, Measure};

verus! {

broadcast use crate::ids::AgentId::lemma_at_value, crate::ids::AgentId::lemma_value_identifies;

/// What the first step reads of one agent slot to announce it.
#[derive(Debug, Clone, Copy, PartialEq, Eq, Structural)]
pub struct PopulationSlot {
    /// Whether the slot holds a live agent.
    pub alive: bool,
    /// The agent's mode.
    pub mode: AgentMode,
    /// The guide path the agent was placed on.
    pub path: PathId,
    /// The agent's distance along that path in metres.
    pub distance_m: Measure,
}

/// The `Spawned` record of the agent in slot `index`.
pub open spec fn spawned_record(slot: PopulationSlot, index: int) -> Event {
    Event::Spawned { agent: AgentId::at(index), mode: slot.mode, path: slot.path, distance_m: slot.distance_m }
}

/// The announcement of the first `n` slots: one `Spawned` record for each
/// live slot, in ascending slot order.
pub open spec fn announced(slots: Seq<PopulationSlot>, n: int) -> Seq<Event>
    decreases n,
{
    if n <= 0 {
        Seq::empty()
    } else if slots[n - 1].alive {
        announced(slots, n - 1).push(spawned_record(slots[n - 1], n - 1))
    } else {
        announced(slots, n - 1)
    }
}

/// The records that announce the initial population.
///
/// Every live slot is announced once, with its mode, path, and placement,
/// in ascending agent order; a slot that holds no live agent is skipped.
pub fn announce_population(slots: &Vec<PopulationSlot>) -> (r: Vec<Event>)
    requires
        slots.len() <= u32::MAX as usize + 1,
    ensures
        r@ == announced(slots@, slots@.len() as int),
{
    let mut out: Vec<Event> = Vec::new();
    let mut index: usize = 0;
    while index < slots.len()
        invariant
            index <= slots@.len(),
            slots@.len() <= u32::MAX as usize + 1,
            out@ == announced(slots@, index as int),
        decreases slots.len() - index,
    {
        let slot = slots[index];
        if slot.alive {
            let agent = AgentId::from_index(index);
            out.push(Event::Spawned { agent, mode: slot.mode, path: slot.path, distance_m: slot.distance_m });
        }
        index = index + 1;
    }
    out
}

/// The number of live slots among the first `n`.
pub open spec fn live_before(slots: Seq<PopulationSlot>, n: int) -> nat
    decreases n,
{
    if n <= 0 {
        0
    } else if slots[n - 1].alive {
        live_before(slots, n - 1) + 1
    } else {
        live_before(slots, n - 1)
    }
}

/// Every announced record names a slot below `n`, and they come in strictly
/// ascending slot order.
proof fn lemma_announced_ascending(slots: Seq<PopulationSlot>, n: int)
    requires
        0 <= n <= slots.len(),
        slots.len() <= u32::MAX + 1,
    ensures
        forall|i: int| 0 <= i < announced(slots, n).len() ==> subject(#[trigger] announced(slots, n)[i]).value() < n,
        forall|i: int, j: int| 0 <= i < j < announced(slots, n).len() ==>
            subject(#[trigger] announced(slots, n)[i]).value() < subject(#[trigger] announced(slots, n)[j]).value(),
    decreases n,
{
    if n > 0 {
        lemma_announced_ascending(slots, n - 1);
        let prev = announced(slots, n - 1);
        if slots[n - 1].alive {
            let cur = prev.push(spawned_record(slots[n - 1], n - 1));
            assert(subject(cur[prev.len() as int]).value() == n - 1);
            assert forall|i: int| 0 <= i < cur.len() implies subject(#[trigger] cur[i]).value() < n by {
                if i < prev.len() {
                    assert(cur[i] == prev[i]);
                }
            }
            assert forall|i: int, j: int| 0 <= i < j < cur.len() implies
                subject(#[trigger] cur[i]).value() < subject(#[trigger] cur[j]).value() by {
                assert(cur[i] == prev[i]);
                if j < prev.len() {
                    assert(cur[j] == prev[j]);
                }
            }
        }
    }
}

/// The announcement of the first `n` slots has one record per live slot, and
/// the record of live slot `k` stands after those of the live slots below it.
proof fn lemma_announced_positions(slots: Seq<PopulationSlot>, n: int)
    requires
        0 <= n <= slots.len(),
    ensures
        announced(slots, n).len() == live_before(slots, n),
        forall|k: int| 0 <= k < n && slots[k].alive ==>
            announced(slots, n)[#[trigger] live_before(slots, k) as int] == spawned_record(slots[k], k),
    decreases n,
{
    if n > 0 {
        lemma_announced_positions(slots, n - 1);
        let prev = announced(slots, n - 1);
        assert forall|k: int| 0 <= k < n && slots[k].alive implies
            announced(slots, n)[#[trigger] live_before(slots, k) as int] == spawned_record(slots[k], k) by {
            if k < n - 1 {
                assert(prev[live_before(slots, k) as int] == spawned_record(slots[k], k));
                lemma_live_before_grows(slots, k + 1, n - 1);
            }
        }
    }
}

/// Counting live slots over a longer prefix counts at least as many.
proof fn lemma_live_before_grows(slots: Seq<PopulationSlot>, m: int, n: int)
    requires
        0 <= m <= n,
    ensures
        live_before(slots, m) <= live_before(slots, n),
    decreases n - m,
{
    if m < n {
        lemma_live_before_grows(slots, m, n - 1);
    }
}

/// The announcement holds exactly one record per live slot: its length is
/// the number of live slots, the record of live slot `k` is the `Spawned`
/// record of that slot and stands after those of the live slots below it,
/// and the records name strictly ascending agents.
pub proof fn law_announcement_is_one_record_per_live_slot_in_agent_order(slots: Seq<PopulationSlot>)
    requires
        slots.len() <= u32::MAX + 1,
    ensures
        announced(slots, slots.len() as int).len() == live_before(slots, slots.len() as int),
        forall|k: int| 0 <= k < slots.len() && slots[k].alive ==>
            announced(slots, slots.len() as int)[#[trigger] live_before(slots, k) as int] == spawned_record(slots[k], k),
        forall|i: int, j: int| 0 <= i < j < announced(slots, slots.len() as int).len() ==>
            subject(#[trigger] announced(slots, slots.len() as int)[i]).value()
                < subject(#[trigger] announced(slots, slots.len() as int)[j]).value(),
{
    lemma_announced_positions(slots, slots.len() as int);
    lemma_announced_ascending(slots, slots.len() as int);
}

/// Whether route progress `progress` has reached a waypoint whose route
/// progress is `waypoint`.
pub open spec fn reached(progress: Measure, waypoint: Measure) -> bool {
    bits_le(waypoint.bits, progress.bits)
}

/// Whether `r` is where a cursor at `cursor` settles for route progress
/// `progress` along waypoints at the route progresses `plan`.
///
/// The cursor passes each waypoint the progress has reached, one at a time,
/// and stops at the first it has not reached or at the last waypoint.
pub open spec fn settles(cursor: int, progress: Measure, plan: Seq<Measure>, r: int) -> bool {
    if cursor + 1 >= plan.len() {
        r == cursor
    } else {
        &&& cursor <= r < plan.len()
        &&& forall|i: int| cursor <= i < r ==> reached(progress, #[trigger] plan[i])
        &&& r + 1 == plan.len() || !reached(progress, plan[r])
    }
}

/// Advance a pedestrian's waypoint cursor to its route progress.
///
/// `plan` holds the route progress of each waypoint in route order. The
/// cursor is monotone: it passes a waypoint only once the progress has
/// reached it, and never moves off the last waypoint, so the current target
/// is always the next waypoint ahead.
pub fn advance_waypoint(cursor: usize, progress: Measure, plan: &Vec<Measure>) -> (r: usize)
    ensures
        settles(cursor as int, progress, plan@, r as int),
{
    let mut at = cursor;
    if cursor >= plan.len() {
        return cursor;
    }
    while at + 1 < plan.len() && plan[at].at_most(progress)
        invariant
            cursor <= at < plan@.len(),
            forall|i: int| cursor <= i < at ==> reached(progress, #[trigger] plan@[i]),
        decreases plan.len() - at,
    {
        at = at + 1;
    }
    at
}

/// `<=` on bit patterns is transitive.
proof fn lemma_bits_le_transitive(a: u64, b: u64, c: u64)
    requires
        bits_le(a, b),
        bits_le(b, c),
    ensures
        bits_le(a, c),
{
    assert(bits_le(a, b) && bits_le(b, c) ==> bits_le(a, c)) by (bit_vector);
}

/// A cursor lands on exactly one waypoint for a given progress.
pub proof fn law_the_cursor_settles_on_one_waypoint(cursor: int, progress: Measure, plan: Seq<Measure>, r1: int, r2: int)
    requires
        settles(cursor, progress, plan, r1),
        settles(cursor, progress, plan, r2),
    ensures
        r1 == r2,
{
    if cursor + 1 < plan.len() && r1 != r2 {
        if r1 < r2 {
            assert(reached(progress, plan[r1]));
        } else {
            assert(reached(progress, plan[r2]));
        }
    }
}

/// Advancing again at the same progress leaves a settled cursor where it is.
pub proof fn law_settling_again_stays(cursor: int, progress: Measure, plan: Seq<Measure>, r: int)
    requires
        0 <= cursor < plan.len(),
        settles(cursor, progress, plan, r),
    ensures
        settles(r, progress, plan, r),
{
}

/// More route progress never leaves the cursor further back, and the cursor
/// never moves backwards.
pub proof fn law_the_cursor_is_monotone(
    cursor: int,
    earlier: Measure,
    later: Measure,
    plan: Seq<Measure>,
    r_earlier: int,
    r_later: int,
)
    requires
        0 <= cursor < plan.len(),
        bits_le(earlier.bits, later.bits),
        settles(cursor, earlier, plan, r_earlier),
        settles(cursor, later, plan, r_later),
    ensures
        cursor <= r_earlier <= r_later,
{
    if cursor + 1 < plan.len() && r_later < r_earlier {
        assert(reached(earlier, plan[r_later]));
        lemma_bits_le_transitive(plan[r_later].bits, earlier.bits, later.bits);
    }
}

} // verus!
