//! One step of Gillespie's Direct Method.
//!
//! Each step takes two independent uniform samples from the driver. The
//! first determines the waiting time, a real-valued computation the driver
//! performs on the total propensity; the second, given here as the exact
//! fraction `r2_num / r2_den`, determines which reaction fires: the first
//! whose running propensity sum strictly exceeds `r2` times the total, and
//! the last reaction when no running sum does. The strict inequality and
//! the last-index fallback are the deliberate tie-break policy at
//! probability-mass boundaries and are preserved exactly.

use vstd::prelude::*;

verus! {

use crate::simulation::{System, Reaction, TriggerError, propensity_weight, fire, fire_ok,
    consume_ok, consume_all, produce_ok};
use vstd::arithmetic::mul::lemma_mul_upper_bound;

/// The sum of a weight vector, as an unbounded natural.
pub open spec fn sum_weights(ws: Seq<u64>) -> nat
    decreases ws.len(),
{
    if ws.len() == 0 {
        0
    } else {
        (sum_weights(ws.drop_last()) + ws.last()) as nat
    }
}

/// A prefix never sums to more than the whole vector.
proof fn lemma_sum_weights_take_le(ws: Seq<u64>, i: int)
    requires
        0 <= i <= ws.len(),
    ensures
        sum_weights(ws.take(i)) <= sum_weights(ws),
    decreases ws.len(),
{
    if i == ws.len() {
        assert(ws.take(i) =~= ws);
    } else {
        assert(ws.take(i) =~= ws.drop_last().take(i));
        lemma_sum_weights_take_le(ws.drop_last(), i);
    }
}

/// The propensities of all reactions, in reaction order, summed as
/// unbounded naturals.
pub open spec fn total_propensity(reactions: Seq<Reaction>, counts: Seq<u64>) -> nat
    decreases reactions.len(),
{
    if reactions.len() == 0 {
        0
    } else {
        (total_propensity(reactions.drop_last(), counts)
            + propensity_weight(reactions.last(), counts)) as nat
    }
}

/// Every propensity, and their total, fits in a `u64`.
pub open spec fn weights_fit(reactions: Seq<Reaction>, counts: Seq<u64>) -> bool {
    &&& forall|j: int| 0 <= j < reactions.len()
        ==> propensity_weight(#[trigger] reactions[j], counts) <= u64::MAX
    &&& total_propensity(reactions, counts) <= u64::MAX
}

/// The propensity vector as machine words; faithful when the weights fit.
pub open spec fn weights_of(reactions: Seq<Reaction>, counts: Seq<u64>) -> Seq<u64> {
    Seq::new(reactions.len(), |j: int| propensity_weight(reactions[j], counts) as u64)
}

/// A weight vector that matches the propensities elementwise sums to the
/// total propensity.
proof fn lemma_sum_weights_matches(ws: Seq<u64>, reactions: Seq<Reaction>, counts: Seq<u64>)
    requires
        ws.len() == reactions.len(),
        forall|j: int| 0 <= j < ws.len()
            ==> ws[j] == propensity_weight(#[trigger] reactions[j], counts),
    ensures
        sum_weights(ws) == total_propensity(reactions, counts),
    decreases ws.len(),
{
    if ws.len() > 0 {
        assert(forall|j: int| 0 <= j < ws.drop_last().len()
            ==> #[trigger] ws.drop_last()[j] == ws[j]
                && reactions.drop_last()[j] == reactions[j]);
        lemma_sum_weights_matches(ws.drop_last(), reactions.drop_last(), counts);
    }
}

/// A growing front of the reaction list never sums to more than the whole.
proof fn lemma_total_propensity_take_le(reactions: Seq<Reaction>, counts: Seq<u64>, i: int)
    requires
        0 <= i <= reactions.len(),
    ensures
        total_propensity(reactions.take(i), counts) <= total_propensity(reactions, counts),
    decreases reactions.len(),
{
    if i == reactions.len() {
        assert(reactions.take(i) =~= reactions);
    } else {
        assert(reactions.take(i) =~= reactions.drop_last().take(i));
        lemma_total_propensity_take_le(reactions.drop_last(), counts, i);
    }
}

/// The running sum through index `j` strictly exceeds the fraction
/// `r2_num / r2_den` of the total.
pub open spec fn exceeds(ws: Seq<u64>, r2_num: u64, r2_den: u64, j: int) -> bool {
    r2_den * sum_weights(ws.take(j + 1)) > r2_num * sum_weights(ws)
}

/// The scan of the Direct Method from index `j` on: the first index whose
/// running sum exceeds the target, and the last index when none does.
pub open spec fn selected_from(ws: Seq<u64>, r2_num: u64, r2_den: u64, j: int) -> int
    decreases ws.len() - j,
{
    if j >= ws.len() - 1 {
        ws.len() - 1
    } else if exceeds(ws, r2_num, r2_den, j) {
        j
    } else {
        selected_from(ws, r2_num, r2_den, j + 1)
    }
}

/// The reaction index the Direct Method selects for the fraction
/// `r2 = r2_num / r2_den` of the total propensity.
pub open spec fn spec_selected(ws: Seq<u64>, r2_num: u64, r2_den: u64) -> int {
    selected_from(ws, r2_num, r2_den, 0)
}

proof fn lemma_selected_from_characterization(ws: Seq<u64>, r2_num: u64, r2_den: u64, j: int)
    requires
        0 <= j <= ws.len() - 1,
    ensures
        j <= selected_from(ws, r2_num, r2_den, j) < ws.len(),
        forall|l: int| j <= l < selected_from(ws, r2_num, r2_den, j)
            ==> !exceeds(ws, r2_num, r2_den, l),
        exceeds(ws, r2_num, r2_den, selected_from(ws, r2_num, r2_den, j))
            || selected_from(ws, r2_num, r2_den, j) == ws.len() - 1,
    decreases ws.len() - j,
{
    if j < ws.len() - 1 && !exceeds(ws, r2_num, r2_den, j) {
        lemma_selected_from_characterization(ws, r2_num, r2_den, j + 1);
    }
}

/// The tie-break law of the selection: the selected index is in range, no
/// earlier running sum exceeds the target, and either the selected one does
/// or it is the last index.
pub proof fn lemma_selected_characterization(ws: Seq<u64>, r2_num: u64, r2_den: u64)
    requires
        ws.len() >= 1,
    ensures
        0 <= spec_selected(ws, r2_num, r2_den) < ws.len(),
        forall|l: int| 0 <= l < spec_selected(ws, r2_num, r2_den)
            ==> !exceeds(ws, r2_num, r2_den, l),
        exceeds(ws, r2_num, r2_den, spec_selected(ws, r2_num, r2_den))
            || spec_selected(ws, r2_num, r2_den) == ws.len() - 1,
{
    lemma_selected_from_characterization(ws, r2_num, r2_den, 0);
}

/// The reaction index selected for the uniform fraction
/// `r2 = r2_num / r2_den`, or `None` when the total propensity is zero: the
/// absorbing terminal state, reported distinctly so the driver can stop.
pub fn select_reaction(weights: &Vec<u64>, r2_num: u64, r2_den: u64) -> (r: Option<usize>)
    requires
        r2_den >= 1,
        r2_num <= r2_den,
        sum_weights(weights@) <= u64::MAX,
    ensures
        match r {
            Some(j) => sum_weights(weights@) > 0
                && j as int == spec_selected(weights@, r2_num, r2_den),
            None => sum_weights(weights@) == 0,
        },
{
    let ghost ws = weights@;
    let mut total: u64 = 0;
    let mut i: usize = 0;
    while i < weights.len()
        invariant
            ws == weights@,
            i <= ws.len(),
            sum_weights(ws) <= u64::MAX,
            total == sum_weights(ws.take(i as int)),
        decreases ws.len() - i,
    {
        proof {
            assert(ws.take(i as int + 1).drop_last() =~= ws.take(i as int));
            assert(ws.take(i as int + 1).last() == ws[i as int]);
            lemma_sum_weights_take_le(ws, i as int + 1);
        }
        total = total + weights[i];
        i = i + 1;
    }
    proof {
        assert(ws.take(ws.len() as int) =~= ws);
    }
    if total == 0 {
        return None;
    }

    let mut running: u64 = 0;
    let mut i: usize = 0;
    while i < weights.len()
        invariant
            ws == weights@,
            ws.len() >= 1,
            i <= ws.len(),
            sum_weights(ws) <= u64::MAX,
            sum_weights(ws) > 0,
            total == sum_weights(ws),
            running == sum_weights(ws.take(i as int)),
            i < ws.len() ==> spec_selected(ws, r2_num, r2_den)
                == selected_from(ws, r2_num, r2_den, i as int),
            i == ws.len() ==> spec_selected(ws, r2_num, r2_den) == ws.len() - 1,
        decreases ws.len() - i,
    {
        proof {
            assert(ws.take(i as int + 1).drop_last() =~= ws.take(i as int));
            assert(ws.take(i as int + 1).last() == ws[i as int]);
            lemma_sum_weights_take_le(ws, i as int + 1);
        }
        running = running + weights[i];
        proof {
            lemma_mul_upper_bound(r2_den as int, u64::MAX as int, running as int, u64::MAX as int);
            lemma_mul_upper_bound(r2_num as int, u64::MAX as int, total as int, u64::MAX as int);
        }
        let lhs: u128 = (r2_den as u128) * (running as u128);
        let rhs: u128 = (r2_num as u128) * (total as u128);
        if lhs > rhs {
            return Some(i);
        }
        i = i + 1;
    }
    Some(weights.len() - 1)
}

/// Why a step did not fire a reaction.
///
/// `Terminal` is the expected end of a trajectory. The other three report a
/// state the selection contract cannot serve: a caller that reached them
/// computed propensities inconsistent with the state (or exceeded the
/// machine range) and must treat them as fatal, never retry them silently.
#[derive(Clone, Copy, Debug, PartialEq, Eq, Structural)]
pub enum StepError {
    /// The total propensity is zero: no reaction can ever fire again.
    Terminal,
    /// A propensity, or the total, does not fit in a `u64`.
    PropensityOverflow,
    /// The selected reaction cannot consume its reactants. A reaction with
    /// positive propensity and no repeated reactant entry can always consume
    /// them (`lemma_positive_propensity_consumes`), so this arises through
    /// the last-index fallback onto an exhausted reaction, or through a
    /// repeated entry.
    InsufficientReactants,
    /// Applying the selected reaction would push a count past the `u64`
    /// range.
    CountOverflow,
}

impl System {
    /// The propensity vector, in reaction order and in the common rate
    /// unit, or `None` when a propensity or the total leaves the `u64`
    /// range.
    pub fn propensity_weights(&self) -> (r: Option<Vec<u64>>)
        requires
            self.wf(),
        ensures
            match r {
                Some(ws) => weights_fit(self.reactions@, self.state@)
                    && ws@ == weights_of(self.reactions@, self.state@),
                None => !weights_fit(self.reactions@, self.state@),
            },
    {
        let ghost reactions = self.reactions@;
        let ghost counts = self.state@;
        let mut ws: Vec<u64> = Vec::new();
        let mut total: u64 = 0;
        let mut j: usize = 0;
        while j < self.reactions.len()
            invariant
                self.wf(),
                reactions == self.reactions@,
                counts == self.state@,
                j <= reactions.len(),
                ws@.len() == j,
                forall|l: int| 0 <= l < j
                    ==> ws@[l] == propensity_weight(#[trigger] reactions[l], counts),
                forall|l: int| 0 <= l < j
                    ==> propensity_weight(#[trigger] reactions[l], counts) <= u64::MAX,
                total == sum_weights(ws@),
            decreases reactions.len() - j,
        {
            let w = match self.reactions[j].propensity_checked(&self.state) {
                None => {
                    return None;
                },
                Some(w) => w,
            };
            proof {
                assert(ws@.push(w).drop_last() =~= ws@);
                lemma_sum_weights_matches(ws@.push(w), reactions.take(j as int + 1), counts);
                lemma_total_propensity_take_le(reactions, counts, j as int + 1);
            }
            if w > u64::MAX - total {
                // The running total already exceeds the range, so the full
                // total does as well.
                return None;
            }
            total = total + w;
            ws.push(w);
            j = j + 1;
        }
        proof {
            assert(ws@ =~= weights_of(reactions, counts));
            lemma_sum_weights_matches(ws@, reactions, counts);
        }
        Some(ws)
    }

}

/// One step of the Direct Method, once the driver has drawn its two
/// uniform samples: selects the reaction for the fraction
/// `r2 = r2_num / r2_den` of the total propensity and applies it at
/// `reaction_time` (the driver computes the elapsed waiting time from its
/// first sample and the total propensity, in its own time encoding).
///
/// On any error the system is unchanged. `Terminal` reports the absorbing
/// state (zero total propensity); the other errors report machine-range
/// limits or a selected reaction that cannot consume its reactants, and are
/// fatal to the caller.
pub fn gillespie_step(system: &mut System, r2_num: u64, r2_den: u64, reaction_time: u64)
    -> (r: Result<usize, StepError>)
    requires
        old(system).wf(),
        r2_den >= 1,
        r2_num <= r2_den,
        old(system).time_of_last_reaction <= reaction_time,
    ensures
        final(system).wf(),
        ({
            let counts = old(system).state@;
            let reactions = old(system).reactions@;
            let fit = weights_fit(reactions, counts);
            let total = total_propensity(reactions, counts);
            let sel = spec_selected(weights_of(reactions, counts), r2_num, r2_den);
            &&& (r == Err::<usize, StepError>(StepError::PropensityOverflow) <==> !fit)
            &&& (r == Err::<usize, StepError>(StepError::Terminal) <==> fit && total == 0)
            &&& (fit && total > 0 ==> {
                &&& 0 <= sel < reactions.len()
                &&& (r == Err::<usize, StepError>(StepError::InsufficientReactants)
                    <==> !consume_ok(counts, reactions[sel].reactants@))
                &&& (r == Err::<usize, StepError>(StepError::CountOverflow)
                    <==> consume_ok(counts, reactions[sel].reactants@)
                        && !produce_ok(consume_all(counts, reactions[sel].reactants@),
                            reactions[sel].products@))
                &&& (fire_ok(counts, reactions[sel]) ==> r == Ok::<usize, StepError>(
                    sel as usize))
            })
            &&& (r matches Ok(j) ==> {
                &&& fit && total > 0
                &&& j as int == sel
                &&& fire_ok(counts, reactions[sel])
                &&& final(system).state@ == fire(counts, reactions[sel])
                &&& final(system).time_of_last_reaction == reaction_time
                &&& final(system).last_reaction == Some(j)
            })
            &&& (r is Err ==> *final(system) == *old(system))
            &&& final(system).idx_to_name == old(system).idx_to_name
            &&& final(system).reactions == old(system).reactions
        }),
{
    let ghost counts = system.state@;
    let ghost reactions = system.reactions@;
    let ws = match system.propensity_weights() {
        None => {
            return Err(StepError::PropensityOverflow);
        },
        Some(ws) => ws,
    };
    proof {
        assert(forall|l: int| 0 <= l < ws@.len()
            ==> ws@[l] == propensity_weight(#[trigger] reactions[l], counts));
        lemma_sum_weights_matches(ws@, reactions, counts);
    }
    let j = match select_reaction(&ws, r2_num, r2_den) {
        None => {
            return Err(StepError::Terminal);
        },
        Some(j) => j,
    };
    proof {
        lemma_selected_characterization(ws@, r2_num, r2_den);
    }
    match system.trigger_reaction_checked(reaction_time, j) {
        Ok(()) => Ok(j),
        Err(TriggerError::InsufficientReactants) => Err(StepError::InsufficientReactants),
        Err(TriggerError::CountOverflow) => Err(StepError::CountOverflow),
        Err(_) => {
            // The index is in range and the time does not move backwards,
            // so neither remaining violation can occur.
            proof {
                assert(false);
            }
            Err(StepError::Terminal)
        },
    }
}

} // verus!
