//! Longitudinal leader selection.
//!
//! A vehicle follows the nearest body ahead of it on its reference: among the
//! live bodies whose rear lies ahead of its front, the one with the least gap.
//! Candidates are scanned in ascending agent id order and a later candidate
//! replaces the current best only with a strictly smaller gap, so a tie
//! resolves to the lowest agent id. A body an active lateral maneuver is
//! passing is no longer a longitudinal leader: the maneuver's own corridor
//! clearance governs the approach to it.

use vstd::prelude::*;

use crate::ids::AgentId;
use crate::lifecycle::ManeuverStatus;
use crate::measure::{bits_lt, bits_nan, Measure};
use crate::stage::ManeuverState;

verus! {

/// One body ahead of a follower on its reference, and the gap from the
/// follower's front to the body's rear in metres.
#[derive(Debug, Clone, Copy, PartialEq, Eq, Hash, Structural)]
pub struct LeaderCandidate {
    /// The body ahead.
    pub agent: AgentId,
    /// Gap from the follower's front bumper to the body's rear.
    pub gap_m: Measure,
}

/// The leader among the first `n` candidates: a later candidate replaces the
/// best so far only with a strictly smaller gap.
pub open spec fn leader_among(candidates: Seq<LeaderCandidate>, n: int) -> Option<LeaderCandidate>
    decreases n,
{
    if n <= 0 {
        None
    } else {
        let c = candidates[n - 1];
        match leader_among(candidates, n - 1) {
            None => Some(c),
            Some(best) => if bits_lt(c.gap_m.bits, best.gap_m.bits) {
                Some(c)
            } else {
                Some(best)
            },
        }
    }
}

/// The nearest leader among candidates given in ascending agent id order,
/// the lowest id winning a tie; `None` when there is no candidate.
pub fn nearest_leader(candidates: &Vec<LeaderCandidate>) -> (r: Option<LeaderCandidate>)
    ensures
        r == leader_among(candidates@, candidates@.len() as int),
{
    let mut best: Option<LeaderCandidate> = None;
    let mut i: usize = 0;
    while i < candidates.len()
        invariant
            i <= candidates@.len(),
            best == leader_among(candidates@, i as int),
        decreases candidates.len() - i,
    {
        let c = candidates[i];
        best = match best {
            None => Some(c),
            Some(b) => if c.gap_m.less_than(b.gap_m) {
                Some(c)
            } else {
                Some(b)
            },
        };
        i = i + 1;
    }
    best
}

/// The body an agent's active maneuver passes, which is no longer its
/// longitudinal leader: present once the maneuver has committed, through its
/// return or abort leg.
pub open spec fn passed_by(status: Option<ManeuverStatus>) -> Option<AgentId> {
    match status {
        Some(s) => if s.maneuver == ManeuverState::Committed || s.maneuver == ManeuverState::Returning
            || s.maneuver == ManeuverState::Aborted {
            s.passed_body
        } else {
            None
        },
        None => None,
    }
}

/// The body an agent's active maneuver passes, if it has one.
pub fn maneuver_passed_body(status: Option<ManeuverStatus>) -> (r: Option<AgentId>)
    ensures
        r == passed_by(status),
{
    match status {
        Some(s) => match s.maneuver {
            ManeuverState::Committed | ManeuverState::Returning | ManeuverState::Aborted => s.passed_body,
            _ => None,
        },
        None => None,
    }
}

/// The leader is one of the candidates, and when no gap is a NaN its gap is
/// the least of all, every earlier candidate having a strictly larger gap:
/// a tie resolves to the lowest agent id.
pub proof fn law_leader_is_nearest_and_ties_go_to_the_lowest_id(candidates: Seq<LeaderCandidate>, n: int)
    requires
        0 <= n <= candidates.len(),
        forall|i: int| 0 <= i < n ==> !bits_nan((#[trigger] candidates[i]).gap_m.bits),
    ensures
        n == 0 <==> leader_among(candidates, n) is None,
        leader_among(candidates, n) matches Some(best) ==> exists|k: int|
            0 <= k < n && #[trigger] candidates[k] == best && (forall|i: int|
                0 <= i < n ==> !bits_lt(candidates[i].gap_m.bits, best.gap_m.bits)) && (forall|i: int|
                0 <= i < k ==> bits_lt(best.gap_m.bits, candidates[i].gap_m.bits)),
    decreases n,
{
    if n > 0 {
        law_leader_is_nearest_and_ties_go_to_the_lowest_id(candidates, n - 1);
        let c = candidates[n - 1];
        match leader_among(candidates, n - 1) {
            None => {
                assert(candidates[n - 1] == c);
                assert(!bits_lt(c.gap_m.bits, c.gap_m.bits));
            },
            Some(best) => {
                let k = choose|k: int|
                    0 <= k < n - 1 && #[trigger] candidates[k] == best && (forall|i: int|
                        0 <= i < n - 1 ==> !bits_lt(candidates[i].gap_m.bits, best.gap_m.bits)) && (forall|i: int|
                        0 <= i < k ==> bits_lt(best.gap_m.bits, candidates[i].gap_m.bits));
                if bits_lt(c.gap_m.bits, best.gap_m.bits) {
                    assert(candidates[n - 1] == c);
                    assert forall|i: int| 0 <= i < n implies !bits_lt(candidates[i].gap_m.bits, c.gap_m.bits) by {
                        if i < n - 1 {
                            lemma_lt_order(candidates[i].gap_m.bits, best.gap_m.bits, c.gap_m.bits);
                        } else {
                            lemma_lt_order(c.gap_m.bits, c.gap_m.bits, c.gap_m.bits);
                        }
                    }
                    assert forall|i: int| 0 <= i < n - 1 implies bits_lt(c.gap_m.bits, candidates[i].gap_m.bits) by {
                        lemma_lt_total(c.gap_m.bits, best.gap_m.bits, candidates[i].gap_m.bits);
                    }
                } else {
                    assert(candidates[k] == best);
                }
            },
        }
    }
}

/// The bit-pattern order of non-NaN values is a strict order: irreflexive,
/// and `a < c` with `c < b` gives `a < b`.
proof fn lemma_lt_order(a: u64, b: u64, c: u64)
    requires
        !bits_nan(a),
        !bits_nan(b),
        !bits_nan(c),
    ensures
        !bits_lt(a, a),
        bits_lt(a, c) && bits_lt(c, b) ==> bits_lt(a, b),
        bits_lt(a, b) ==> !bits_lt(b, a),
{
    assert(!bits_lt(a, a)) by (bit_vector)
        requires
            !bits_nan(a),
    ;
    assert(bits_lt(a, c) && bits_lt(c, b) ==> bits_lt(a, b)) by (bit_vector)
        requires
            !bits_nan(a),
            !bits_nan(b),
            !bits_nan(c),
    ;
    assert(bits_lt(a, b) ==> !bits_lt(b, a)) by (bit_vector)
        requires
            !bits_nan(a),
            !bits_nan(b),
    ;
}

/// For non-NaN values, a value below `b` is below every value not below
/// `b`.
proof fn lemma_lt_total(c: u64, b: u64, a: u64)
    requires
        !bits_nan(a),
        !bits_nan(b),
        !bits_nan(c),
        bits_lt(c, b),
        !bits_lt(a, b),
    ensures
        bits_lt(c, a),
{
    assert(bits_lt(c, a)) by (bit_vector)
        requires
            !bits_nan(a),
            !bits_nan(b),
            !bits_nan(c),
            bits_lt(c, b),
            !bits_lt(a, b),
    ;
}

} // verus!
