//! Laws that hold along whole trajectories, not just single steps.
//!
//! A trajectory is described ghost-side by the fixed reaction list, the
//! initial counts and clock, and the sequence of events (reaction time and
//! reaction index) or of raw draws that produced them. The lemmas here state
//! the global invariants of the simulation: counts never go below zero,
//! the clock never moves backwards, and replaying the same draws reproduces
//! the same trajectory.

use vstd::prelude::*;

verus! {

use crate::simulation::{Reaction, fire, fire_ok, consume_all, lemma_consume_all_len,
    lemma_produce_all_len};
use crate::gillespie_simulator::{weights_of, weights_fit, total_propensity, spec_selected};

/// Every event in the sequence is a valid mutation when its turn comes: the
/// index is in range, the time does not move backwards, and the reaction can
/// fire from the counts reached so far. This is exactly the precondition of
/// `System::trigger_reaction` at each step.
pub open spec fn trace_ok(
    reactions: Seq<Reaction>,
    counts: Seq<u64>,
    clock: u64,
    events: Seq<(u64, int)>,
) -> bool
    decreases events.len(),
{
    events.len() == 0 || {
        &&& 0 <= events[0].1 < reactions.len()
        &&& clock <= events[0].0
        &&& fire_ok(counts, reactions[events[0].1])
        &&& trace_ok(
            reactions,
            fire(counts, reactions[events[0].1]),
            events[0].0,
            events.drop_first(),
        )
    }
}

/// The counts after the whole event sequence is applied in order.
pub open spec fn trace_counts(
    reactions: Seq<Reaction>,
    counts: Seq<u64>,
    events: Seq<(u64, int)>,
) -> Seq<u64>
    decreases events.len(),
{
    if events.len() == 0 {
        counts
    } else {
        trace_counts(reactions, fire(counts, reactions[events[0].1]), events.drop_first())
    }
}

/// The clock after the whole event sequence: the time of the last event, or
/// the starting clock when there is none.
pub open spec fn trace_clock(clock: u64, events: Seq<(u64, int)>) -> u64
    decreases events.len(),
{
    if events.len() == 0 {
        clock
    } else {
        trace_clock(events[0].0, events.drop_first())
    }
}

/// Applying one reaction keeps the length of the count vector.
pub proof fn lemma_fire_len(counts: Seq<u64>, r: Reaction)
    requires
        fire_ok(counts, r),
    ensures
        fire(counts, r).len() == counts.len(),
{
    lemma_consume_all_len(counts, r.reactants@);
    lemma_produce_all_len(consume_all(counts, r.reactants@), r.products@);
}

/// Along any valid event sequence the species counts keep their number and
/// every count stays at or above zero. Counts are machine naturals, so a
/// negative value cannot even be represented; the content of the law is
/// that a valid trace demands `fire_ok` at every step, so no subtraction
/// ever finds fewer molecules than it removes and none wraps around.
pub proof fn lemma_trace_counts_nonnegative(
    reactions: Seq<Reaction>,
    counts: Seq<u64>,
    clock: u64,
    events: Seq<(u64, int)>,
)
    requires
        trace_ok(reactions, counts, clock, events),
    ensures
        trace_counts(reactions, counts, events).len() == counts.len(),
        forall|i: int| 0 <= i < counts.len()
            ==> trace_counts(reactions, counts, events)[i] >= 0,
    decreases events.len(),
{
    if events.len() > 0 {
        lemma_fire_len(counts, reactions[events[0].1]);
        lemma_trace_counts_nonnegative(
            reactions,
            fire(counts, reactions[events[0].1]),
            events[0].0,
            events.drop_first(),
        );
    }
}

/// The simulation clock is monotonically non-decreasing across any valid
/// event sequence: the clock after the whole sequence is at or after the
/// starting clock.
pub proof fn lemma_trace_clock_monotone(
    reactions: Seq<Reaction>,
    counts: Seq<u64>,
    clock: u64,
    events: Seq<(u64, int)>,
)
    requires
        trace_ok(reactions, counts, clock, events),
    ensures
        clock <= trace_clock(clock, events),
    decreases events.len(),
{
    if events.len() > 0 {
        lemma_trace_clock_monotone(
            reactions,
            fire(counts, reactions[events[0].1]),
            events[0].0,
            events.drop_first(),
        );
    }
}

/// The clock is non-decreasing at every point of the trajectory, not only
/// at its ends: the clock after any front part of a valid event sequence is
/// at or before the clock after the whole of it.
pub proof fn lemma_trace_clock_monotone_prefix(
    reactions: Seq<Reaction>,
    counts: Seq<u64>,
    clock: u64,
    events: Seq<(u64, int)>,
    k: int,
)
    requires
        trace_ok(reactions, counts, clock, events),
        0 <= k <= events.len(),
    ensures
        trace_clock(clock, events.take(k)) <= trace_clock(clock, events),
    decreases events.len(),
{
    if k == 0 {
        assert(events.take(0) =~= Seq::<(u64, int)>::empty());
        lemma_trace_clock_monotone(reactions, counts, clock, events);
    } else {
        assert(events.take(k)[0] == events[0]);
        assert(events.take(k).drop_first() =~= events.drop_first().take(k - 1));
        lemma_trace_clock_monotone_prefix(
            reactions,
            fire(counts, reactions[events[0].1]),
            events[0].0,
            events.drop_first(),
            k - 1,
        );
    }
}

/// The trajectory driven by a sequence of draws, each draw being the
/// selection fraction `(r2_num, r2_den)` together with the reaction time
/// the driver computed from its first uniform sample. The drive stops, leaving
/// counts and clock as they stand, at the terminal state (zero total
/// propensity) and on the conditions the executable step reports as fatal
/// errors.
pub open spec fn drive(
    reactions: Seq<Reaction>,
    counts: Seq<u64>,
    clock: u64,
    draws: Seq<(u64, u64, u64)>,
) -> (Seq<u64>, u64)
    decreases draws.len(),
{
    if draws.len() == 0 {
        (counts, clock)
    } else if !weights_fit(reactions, counts) || total_propensity(reactions, counts) == 0 {
        (counts, clock)
    } else {
        let sel = spec_selected(weights_of(reactions, counts), draws[0].0, draws[0].1);
        if !(0 <= sel < reactions.len() && fire_ok(counts, reactions[sel])
            && clock <= draws[0].2) {
            (counts, clock)
        } else {
            drive(reactions, fire(counts, reactions[sel]), draws[0].2, draws.drop_first())
        }
    }
}

/// Determinism: replaying the same ordered draw sequence against the same
/// reaction list, counts and clock yields the identical trajectory. The
/// contract of `gillespie_step` pins the executable step to the
/// same selection and mutation functions `drive` is built from, so a driver
/// that replays a recorded draw sequence reproduces its run exactly.
pub proof fn lemma_drive_deterministic(
    reactions_a: Seq<Reaction>,
    counts_a: Seq<u64>,
    clock_a: u64,
    draws_a: Seq<(u64, u64, u64)>,
    reactions_b: Seq<Reaction>,
    counts_b: Seq<u64>,
    clock_b: u64,
    draws_b: Seq<(u64, u64, u64)>,
)
    requires
        reactions_a == reactions_b,
        counts_a == counts_b,
        clock_a == clock_b,
        draws_a == draws_b,
    ensures
        drive(reactions_a, counts_a, clock_a, draws_a)
            == drive(reactions_b, counts_b, clock_b, draws_b),
{
}

} // verus!
