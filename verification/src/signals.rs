//! Crossing yields and signal-compliance violations: the edge records a
//! vehicle's recorded yield and stop-line decisions produce.
//!
//! A vehicle yields to the next crossing its movement crosses while an
//! authored `yield` rule obliges the movement, the crossing is occupied, and
//! the vehicle's front is still upstream of the crossing entry. The recorded
//! state is the crossing currently yielded to; a change reports the yield that
//! ended and then the one that began. A red-light run is reported on the tick
//! a vehicle whose recorded decision was to proceed against a non-green head
//! from upstream of the stop line is first past the line.

use vstd::prelude::*;

use crate::event::{Event, ViolationKind};
use crate::ids::{AgentId, CrossingId, MovementId};
use crate::measure::{bits_le, bits_lt, bits_nan, Measure};
use crate::safety::SignalAction;

verus! {

/// The kind of a compiled movement rule.
#[derive(Debug, Clone, Copy, PartialEq, Eq, Hash, Structural)]
pub enum RuleKind {
    /// The movement yields to the crossings it crosses.
    Yield,
    /// A rule the kernel's yield logic does not read.
    Other,
}

/// One compiled movement rule.
#[derive(Debug, Clone, Copy, PartialEq, Eq, Hash, Structural)]
pub struct CompiledRule {
    /// The movement the rule governs.
    pub movement: MovementId,
    /// What the rule obliges.
    pub kind: RuleKind,
}

/// Whether a compiled `yield` rule names a movement.
pub open spec fn yields_under(rules: Seq<CompiledRule>, movement: MovementId) -> bool {
    exists|i: int| 0 <= i < rules.len() && #[trigger] rules[i] == (CompiledRule { movement, kind: RuleKind::Yield })
}

/// Whether an authored `yield` rule obliges a movement to yield to the
/// crossings it crosses. A movement with no yield rule is unaffected.
pub fn movement_yields(rules: &Vec<CompiledRule>, movement: MovementId) -> (r: bool)
    ensures
        r == yields_under(rules@, movement),
{
    let mut i: usize = 0;
    while i < rules.len()
        invariant
            i <= rules@.len(),
            forall|j: int| 0 <= j < i ==> rules@[j] != (CompiledRule { movement, kind: RuleKind::Yield }),
        decreases rules.len() - i,
    {
        if rules[i].movement == movement && rules[i].kind == RuleKind::Yield {
            assert(rules@[i as int] == (CompiledRule { movement, kind: RuleKind::Yield }));
            return true;
        }
        i = i + 1;
    }
    false
}

/// The records of a change of the crossing a vehicle yields to: the end of
/// the previous yield, then the start of the new one.
pub open spec fn yield_records(agent: AgentId, previous: Option<CrossingId>, desired: Option<CrossingId>) -> Seq<
    Event,
> {
    if desired == previous {
        Seq::<Event>::empty()
    } else {
        (match previous {
            Some(crossing) => seq![Event::Yielded { agent, crossing, yielding: false }],
            None => Seq::<Event>::empty(),
        }) + (match desired {
            Some(crossing) => seq![Event::Yielded { agent, crossing, yielding: true }],
            None => Seq::<Event>::empty(),
        })
    }
}

/// Record the crossing a vehicle now yields to (`desired`, or `None`) and
/// append the records of the change from the recorded one.
pub fn update_yield(agent: AgentId, recorded: &mut Option<CrossingId>, desired: Option<CrossingId>, events: &mut Vec<Event>)
    ensures
        *final(recorded) == desired,
        final(events)@ == old(events)@ + yield_records(agent, *old(recorded), desired),
{
    let previous = *recorded;
    if desired == previous {
        return;
    }
    let ghost start = events@;
    match previous {
        Some(crossing) => events.push(Event::Yielded { agent, crossing, yielding: false }),
        None => {},
    }
    match desired {
        Some(crossing) => events.push(Event::Yielded { agent, crossing, yielding: true }),
        None => {},
    }
    *recorded = desired;
    proof {
        assert(events@ =~= start + yield_records(agent, previous, desired));
    }
}

/// The facts of a vehicle's recorded signal-compliance decision that the
/// violation check reads.
#[derive(Debug, Clone, Copy, PartialEq, Eq, Hash, Structural)]
pub struct StopLineDecision {
    /// The decided action.
    pub action: SignalAction,
    /// Whether the governing head showed green.
    pub green: bool,
    /// Whether the decision reports the front already past the stop line.
    pub past_stop_line: bool,
    /// Remaining gap from the front bumper to the stop line in metres.
    pub stop_line_gap_m: Measure,
}

/// Whether a decision this tick completes a red-light run: the recorded
/// previous decision proceeded against a non-green head with the front still
/// upstream of the line (a gap `> 0.0`), and this tick's decision reports the
/// front past the line.
pub open spec fn runs_red_light(previous: Option<StopLineDecision>, decision: Option<StopLineDecision>) -> bool {
    match (previous, decision) {
        (Some(p), Some(d)) => d.past_stop_line && p.action == SignalAction::Proceed && !p.green && bits_lt(
            0,
            p.stop_line_gap_m.bits,
        ),
        _ => false,
    }
}

/// The violation record of a red-light run, or `None` when this tick's
/// decision completes none.
pub fn red_light_violation(agent: AgentId, previous: Option<StopLineDecision>, decision: Option<StopLineDecision>) -> (r:
    Option<Event>)
    ensures
        r == (if runs_red_light(previous, decision) {
            Some(Event::Violation { agent, kind: ViolationKind::RanRedLight })
        } else {
            None
        }),
{
    match (previous, decision) {
        (Some(p), Some(d)) => {
            if d.past_stop_line && p.action == SignalAction::Proceed && !p.green
                && Measure::zero().less_than(p.stop_line_gap_m) {
                Some(Event::Violation { agent, kind: ViolationKind::RanRedLight })
            } else {
                None
            }
        },
        _ => None,
    }
}

/// A red-light run is reported once per crossing action: a decision that
/// reports the front past the line carries no positive gap, so once it is the
/// recorded decision, no later tick completes another run from it.
pub proof fn law_red_light_reported_once(
    previous: Option<StopLineDecision>,
    decision: StopLineDecision,
    next: Option<StopLineDecision>,
)
    requires
        decision.past_stop_line ==> !bits_lt(0, decision.stop_line_gap_m.bits),
    ensures
        runs_red_light(previous, Some(decision)) ==> !runs_red_light(Some(decision), next),
{
}

/// Successive yield changes alternate per crossing: a change that begins a
/// yield to a crossing is followed, at the vehicle's next change, by the end
/// of that same yield before any other begins.
pub proof fn law_yield_edges_alternate(
    agent: AgentId,
    previous: Option<CrossingId>,
    desired: CrossingId,
    next: Option<CrossingId>,
)
    requires
        Some(desired) != previous,
        next != Some(desired),
    ensures
        yield_records(agent, previous, Some(desired)).last() == (Event::Yielded {
            agent,
            crossing: desired,
            yielding: true,
        }),
        yield_records(agent, Some(desired), next)[0] == (Event::Yielded {
            agent,
            crossing: desired,
            yielding: false,
        }),
{
}

/// One compiled crossing as a vehicle's next-crossing search sees it.
#[derive(Debug, Clone, Copy, PartialEq, Eq, Hash, Structural)]
pub struct CrossingAhead {
    /// The crossing.
    pub crossing: CrossingId,
    /// Whether the crossing lists the vehicle's movement.
    pub crosses_movement: bool,
    /// The directional path progress of the crossing's entry along the
    /// vehicle's path, `None` when the crossing does not lie on it.
    pub entry_m: Option<Measure>,
}

/// Whether a crossing is a candidate for the next crossing of a vehicle
/// whose front is at directional progress `own_front`: it lists the
/// movement, lies on the path, and its entry is not at or behind the front.
pub open spec fn crossing_ahead(own_front: Measure, c: CrossingAhead) -> bool {
    &&& c.crosses_movement
    &&& c.entry_m is Some
    &&& !bits_le(c.entry_m->0.bits, own_front.bits)
}

/// The next crossing among the first `n` compiled crossings, with its entry:
/// a later candidate replaces the best so far unless the best's entry is at
/// or before its own.
pub open spec fn next_crossing_among(own_front: Measure, crossings: Seq<CrossingAhead>, n: int) -> Option<(CrossingId, Measure)>
    decreases n,
{
    if n <= 0 {
        None
    } else {
        let best = next_crossing_among(own_front, crossings, n - 1);
        let c = crossings[n - 1];
        if !crossing_ahead(own_front, c) {
            best
        } else {
            match best {
                Some((id, entry)) => if bits_le(entry.bits, c.entry_m->0.bits) {
                    best
                } else {
                    Some((c.crossing, c.entry_m->0))
                },
                None => Some((c.crossing, c.entry_m->0)),
            }
        }
    }
}

/// The next crossing a vehicle's movement crosses ahead of its front, given
/// the compiled crossings in ascending id order; the lowest id wins a tie.
///
/// `own_front` is the directional progress of the vehicle's front.
pub fn next_crossing(own_front: Measure, crossings: &Vec<CrossingAhead>) -> (r: Option<CrossingId>)
    ensures
        r == (match next_crossing_among(own_front, crossings@, crossings@.len() as int) {
            Some((id, _)) => Some(id),
            None => None,
        }),
{
    let mut best: Option<(CrossingId, Measure)> = None;
    let mut i: usize = 0;
    while i < crossings.len()
        invariant
            i <= crossings@.len(),
            best == next_crossing_among(own_front, crossings@, i as int),
        decreases crossings.len() - i,
    {
        let c = crossings[i];
        if c.crosses_movement {
            if let Some(entry) = c.entry_m {
                if !entry.at_most(own_front) {
                    best = match best {
                        Some((id, best_entry)) => if best_entry.at_most(entry) {
                            Some((id, best_entry))
                        } else {
                            Some((c.crossing, entry))
                        },
                        None => Some((c.crossing, entry)),
                    };
                }
            }
        }
        i = i + 1;
    }
    match best {
        Some((id, _)) => Some(id),
        None => None,
    }
}

/// For values that are not NaN, `<=` fails exactly when the reverse `<`
/// holds, and `<` is transitive.
proof fn lemma_le_lt(a: u64, b: u64, c: u64)
    requires
        !bits_nan(a),
        !bits_nan(b),
        !bits_nan(c),
    ensures
        !bits_le(a, b) <==> bits_lt(b, a),
        bits_lt(a, b) && bits_lt(b, c) ==> bits_lt(a, c),
        bits_lt(a, b) ==> !bits_le(b, a),
        bits_le(a, a),
{
    assert(bits_le(a, a)) by (bit_vector)
        requires
            !bits_nan(a),
    ;
    assert(!bits_le(a, b) <==> bits_lt(b, a)) by (bit_vector)
        requires
            !bits_nan(a),
            !bits_nan(b),
    ;
    assert(bits_lt(a, b) && bits_lt(b, c) ==> bits_lt(a, c)) by (bit_vector)
        requires
            !bits_nan(a),
            !bits_nan(b),
            !bits_nan(c),
    ;
}

/// When no entry is a NaN, the search finds a crossing exactly when one lies
/// ahead, and the one it finds lies ahead with the least entry: every
/// crossing ahead has an entry at or after it, and every lower-id crossing
/// ahead has a strictly later entry.
pub proof fn law_next_crossing_is_the_nearest_ahead(own_front: Measure, crossings: Seq<CrossingAhead>, n: int)
    requires
        0 <= n <= crossings.len(),
        !bits_nan(own_front.bits),
        forall|i: int| 0 <= i < n && (#[trigger] crossings[i]).entry_m is Some ==> !bits_nan(
            crossings[i].entry_m->0.bits,
        ),
    ensures
        next_crossing_among(own_front, crossings, n) is None <==> forall|i: int|
            0 <= i < n ==> !crossing_ahead(own_front, #[trigger] crossings[i]),
        next_crossing_among(own_front, crossings, n) matches Some((id, entry)) ==> exists|k: int|
            0 <= k < n && crossing_ahead(own_front, #[trigger] crossings[k]) && crossings[k].crossing == id
                && crossings[k].entry_m == Some(entry) && (forall|i: int|
                0 <= i < n && crossing_ahead(own_front, crossings[i]) ==> bits_le(entry.bits, crossings[i].entry_m->0.bits))
                && (forall|i: int|
                0 <= i < k && crossing_ahead(own_front, crossings[i]) ==> bits_lt(entry.bits, crossings[i].entry_m->0.bits)),
    decreases n,
{
    if n > 0 {
        law_next_crossing_is_the_nearest_ahead(own_front, crossings, n - 1);
        let c = crossings[n - 1];
        let best = next_crossing_among(own_front, crossings, n - 1);
        if !crossing_ahead(own_front, c) {
            assert forall|i: int| 0 <= i < n && crossing_ahead(own_front, #[trigger] crossings[i]) implies i < n - 1 by {}
        } else {
            let e = c.entry_m->0;
            match best {
                None => {
                    assert(crossings[n - 1] == c);
                    assert forall|i: int| 0 <= i < n && crossing_ahead(own_front, #[trigger] crossings[i]) implies bits_le(
                        e.bits,
                        crossings[i].entry_m->0.bits,
                    ) by {
                        if i < n - 1 {
                        } else {
                            lemma_le_lt(e.bits, e.bits, e.bits);
                        }
                    }
                },
                Some((id, be)) => {
                    let k = choose|k: int|
                        0 <= k < n - 1 && crossing_ahead(own_front, #[trigger] crossings[k]) && crossings[k].crossing == id
                            && crossings[k].entry_m == Some(be) && (forall|i: int|
                            0 <= i < n - 1 && crossing_ahead(own_front, crossings[i]) ==> bits_le(
                                be.bits,
                                crossings[i].entry_m->0.bits,
                            )) && (forall|i: int|
                            0 <= i < k && crossing_ahead(own_front, crossings[i]) ==> bits_lt(
                                be.bits,
                                crossings[i].entry_m->0.bits,
                            ));
                    if bits_le(be.bits, e.bits) {
                        assert forall|i: int| 0 <= i < n && crossing_ahead(own_front, #[trigger] crossings[i]) implies bits_le(
                            be.bits,
                            crossings[i].entry_m->0.bits,
                        ) by {
                            if i == n - 1 {
                                assert(crossings[i] == c);
                            }
                        }
                        assert(crossings[k].crossing == id);
                    } else {
                        lemma_le_lt(be.bits, e.bits, e.bits);
                        assert(crossings[n - 1] == c);
                        assert forall|i: int| 0 <= i < n && crossing_ahead(own_front, #[trigger] crossings[i]) implies bits_le(
                            e.bits,
                            crossings[i].entry_m->0.bits,
                        ) by {
                            if i < n - 1 {
                                let ei = crossings[i].entry_m->0;
                                lemma_le_lt(be.bits, ei.bits, e.bits);
                                lemma_le_lt(e.bits, ei.bits, be.bits);
                                lemma_le_lt(ei.bits, e.bits, be.bits);
                                lemma_le_lt(e.bits, be.bits, ei.bits);
                            } else {
                                lemma_le_lt(e.bits, e.bits, e.bits);
                            }
                        }
                        assert forall|i: int| 0 <= i < n - 1 && crossing_ahead(own_front, #[trigger] crossings[i]) implies bits_lt(
                            e.bits,
                            crossings[i].entry_m->0.bits,
                        ) by {
                            let ei = crossings[i].entry_m->0;
                            lemma_le_lt(e.bits, be.bits, ei.bits);
                            lemma_le_lt(be.bits, ei.bits, e.bits);
                            lemma_le_lt(ei.bits, be.bits, e.bits);
                        }
                    }
                },
            }
        }
    }
}

} // verus!
