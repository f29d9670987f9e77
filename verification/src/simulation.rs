//! The reaction-network state: species counts, reactions with their
//! stoichiometry, the simulation clock and the last reaction fired.
//!
//! Counts are machine naturals (`u64`), so a species count can never be
//! negative; the mutation contracts guarantee that no subtraction
//! underflows. Rate constants are carried as positive integers in a common
//! rate unit fixed by the loader: event selection compares propensities
//! only against each other, so any common positive scale gives the same
//! choice, and the driver keeps the real-valued scale for its own
//! time-advance computation. The clock is an order-preserving integer
//! encoding of the simulation time, chosen by the driver; larger values
//! mean later times.

use vstd::prelude::*;

verus! {

use crate::combinatorics::{spec_binomial, binomial_checked, lemma_binomial_above_n,
    lemma_binomial_pos};
use vstd::arithmetic::mul::lemma_mul_upper_bound;

/// One input of a reaction: `quantity` molecules of the species at `index`
/// are consumed when the reaction fires.
#[derive(Clone, Copy, Debug, PartialEq, Eq, Structural)]
pub struct Reactant {
    pub index: usize,
    pub quantity: u64,
}

/// One output of a reaction: `quantity` molecules of the species at `index`
/// are produced when the reaction fires.
#[derive(Clone, Copy, Debug, PartialEq, Eq, Structural)]
pub struct Product {
    pub index: usize,
    pub quantity: u64,
}

/// A reaction: a rate constant (a positive integer in the loader's common
/// rate unit) and the ordered reactant and product lists.
#[derive(Debug)]
pub struct Reaction {
    pub rate_weight: u64,
    pub reactants: Vec<Reactant>,
    pub products: Vec<Product>,
}

impl Reactant {
    /// Valid against a system of `n_species` species: the index is in range
    /// and at least one molecule is consumed.
    pub open spec fn wf(self, n_species: nat) -> bool {
        self.index < n_species && self.quantity >= 1
    }
}

impl Product {
    /// Valid against a system of `n_species` species: the index is in range
    /// and at least one molecule is produced.
    pub open spec fn wf(self, n_species: nat) -> bool {
        self.index < n_species && self.quantity >= 1
    }
}

impl Reaction {
    /// Valid against a system of `n_species` species.
    pub open spec fn wf(self, n_species: nat) -> bool {
        &&& self.rate_weight >= 1
        &&& forall|i: int| 0 <= i < self.reactants@.len() ==> self.reactants@[i].wf(n_species)
        &&& forall|i: int| 0 <= i < self.products@.len() ==> self.products@[i].wf(n_species)
    }
}

/// The combinatorial part of a propensity: the product, over the reactant
/// entries, of `C(count of the species, quantity required)`.
pub open spec fn stoich_factor(reactants: Seq<Reactant>, counts: Seq<u64>) -> nat
    decreases reactants.len(),
{
    if reactants.len() == 0 {
        1
    } else {
        spec_binomial(counts[reactants[0].index as int] as nat, reactants[0].quantity as nat)
            * stoich_factor(reactants.drop_first(), counts)
    }
}

/// The propensity of a reaction, in the common rate unit: the rate constant
/// times the number of distinct ways to pick its reactant molecules from
/// the current counts.
pub open spec fn propensity_weight(r: Reaction, counts: Seq<u64>) -> nat {
    (r.rate_weight * stoich_factor(r.reactants@, counts)) as nat
}

/// Splitting one reactant off the front of the factor product.
proof fn lemma_stoich_factor_skip_unfold(reactants: Seq<Reactant>, counts: Seq<u64>, j: int)
    requires
        0 <= j < reactants.len(),
    ensures
        stoich_factor(reactants.skip(j), counts)
            == spec_binomial(counts[reactants[j].index as int] as nat, reactants[j].quantity as nat)
                * stoich_factor(reactants.skip(j + 1), counts),
{
    assert(reactants.skip(j)[0] == reactants[j]);
    assert(reactants.skip(j).drop_first() =~= reactants.skip(j + 1));
}

/// A reactant entry that asks for more molecules than are present makes the
/// whole factor zero.
proof fn lemma_stoich_factor_zero(reactants: Seq<Reactant>, counts: Seq<u64>, j: int)
    requires
        0 <= j < reactants.len(),
        counts[reactants[j].index as int] < reactants[j].quantity,
    ensures
        stoich_factor(reactants, counts) == 0,
    decreases j,
{
    if j == 0 {
        lemma_binomial_above_n(
            counts[reactants[0].index as int] as nat,
            reactants[0].quantity as nat,
        );
    } else {
        assert(reactants.drop_first()[j - 1] == reactants[j]);
        lemma_stoich_factor_zero(reactants.drop_first(), counts, j - 1);
    }
}

/// When every reactant entry can be served, the factor is at least one.
proof fn lemma_stoich_factor_pos(reactants: Seq<Reactant>, counts: Seq<u64>)
    requires
        forall|i: int| 0 <= i < reactants.len()
            ==> counts[#[trigger] reactants[i].index as int] >= reactants[i].quantity,
    ensures
        stoich_factor(reactants, counts) >= 1,
    decreases reactants.len(),
{
    if reactants.len() > 0 {
        let c = spec_binomial(
            counts[reactants[0].index as int] as nat,
            reactants[0].quantity as nat,
        );
        lemma_binomial_pos(
            counts[reactants[0].index as int] as nat,
            reactants[0].quantity as nat,
        );
        assert(forall|i: int| 0 <= i < reactants.drop_first().len()
            ==> counts[#[trigger] reactants.drop_first()[i].index as int]
                >= reactants.drop_first()[i].quantity) by {
            assert(forall|i: int| 0 <= i < reactants.drop_first().len()
                ==> #[trigger] reactants.drop_first()[i] == reactants[i + 1]);
        }
        lemma_stoich_factor_pos(reactants.drop_first(), counts);
        let f = stoich_factor(reactants.drop_first(), counts);
        assert(c * f >= 1) by (nonlinear_arith)
            requires
                c >= 1,
                f >= 1;
    }
}

/// No species appears twice among the reactant entries.
pub open spec fn distinct_reactant_indices(rs: Seq<Reactant>) -> bool {
    forall|i: int, j: int| 0 <= i < j < rs.len() ==> rs[i].index != rs[j].index
}

/// A positive propensity means every reactant entry, taken on its own,
/// finds enough molecules: were one short, its binomial factor would be
/// zero and so would the whole product.
proof fn lemma_weight_pos_pointwise(r: Reaction, counts: Seq<u64>)
    requires
        propensity_weight(r, counts) > 0,
    ensures
        forall|i: int| 0 <= i < r.reactants@.len()
            ==> counts[#[trigger] r.reactants@[i].index as int] >= r.reactants@[i].quantity,
{
    assert forall|i: int| 0 <= i < r.reactants@.len()
        implies counts[#[trigger] r.reactants@[i].index as int] >= r.reactants@[i].quantity by {
        if counts[r.reactants@[i].index as int] < r.reactants@[i].quantity {
            lemma_stoich_factor_zero(r.reactants@, counts, i);
            assert(r.rate_weight * stoich_factor(r.reactants@, counts) == 0) by (nonlinear_arith)
                requires
                    stoich_factor(r.reactants@, counts) == 0;
        }
    }
}

/// When no species appears twice, entrywise sufficiency is enough for the
/// sequential subtraction: each step touches a count no later entry reads.
proof fn lemma_consume_ok_of_pointwise(rs: Seq<Reactant>, counts: Seq<u64>)
    requires
        forall|i: int| 0 <= i < rs.len() ==> (#[trigger] rs[i]).index < counts.len(),
        forall|i: int| 0 <= i < rs.len()
            ==> counts[#[trigger] rs[i].index as int] >= rs[i].quantity,
        distinct_reactant_indices(rs),
    ensures
        consume_ok(counts, rs),
    decreases rs.len(),
{
    if rs.len() > 0 {
        let rest = rs.drop_first();
        let lowered = consume_one(counts, rs[0]);
        assert(forall|i: int| 0 <= i < rest.len() ==> #[trigger] rest[i] == rs[i + 1]);
        assert(forall|i: int| 0 <= i < rest.len()
            ==> lowered[#[trigger] rest[i].index as int] == counts[rest[i].index as int]);
        lemma_consume_ok_of_pointwise(rest, lowered);
    }
}

/// The consistency law behind the Direct Method's wiring: for a well-formed
/// reaction none of whose reactant entries repeat a species, a positive
/// propensity guarantees that the mutation can consume its reactants — the
/// selection and the state it was computed from cannot disagree.
pub proof fn lemma_positive_propensity_consumes(r: Reaction, counts: Seq<u64>)
    requires
        r.wf(counts.len() as nat),
        distinct_reactant_indices(r.reactants@),
        propensity_weight(r, counts) > 0,
    ensures
        consume_ok(counts, r.reactants@),
{
    lemma_weight_pos_pointwise(r, counts);
    lemma_consume_ok_of_pointwise(r.reactants@, counts);
}

impl Reaction {
    /// The propensity of this reaction for the given counts, in the common
    /// rate unit, or `None` when it does not fit in a `u64`.
    pub fn propensity_checked(&self, state: &Vec<u64>) -> (r: Option<u64>)
        requires
            self.wf(state@.len() as nat),
        ensures
            match r {
                Some(w) => w == propensity_weight(*self, state@),
                None => propensity_weight(*self, state@) > u64::MAX,
            },
    {
        let ghost rs = self.reactants@;
        let ghost counts = state@;

        // A reactant that cannot be served makes the propensity zero.
        let mut j: usize = 0;
        while j < self.reactants.len()
            invariant
                self.wf(state@.len() as nat),
                rs == self.reactants@,
                counts == state@,
                j <= rs.len(),
                forall|i: int| 0 <= i < j
                    ==> counts[#[trigger] rs[i].index as int] >= rs[i].quantity,
            decreases rs.len() - j,
        {
            let entry = self.reactants[j];
            if state[entry.index] < entry.quantity {
                proof {
                    lemma_stoich_factor_zero(rs, counts, j as int);
                    assert(self.rate_weight * stoich_factor(rs, counts) == 0) by (nonlinear_arith)
                        requires
                            stoich_factor(rs, counts) == 0;
                }
                return Some(0);
            }
            j = j + 1;
        }

        // Every entry can be served: every binomial factor is positive, so
        // running past the `u64` range at any point means the full product
        // does too.
        let mut acc: u64 = self.rate_weight;
        let mut k: usize = 0;
        proof {
            assert(rs.skip(0) =~= rs);
        }
        while k < self.reactants.len()
            invariant
                self.wf(state@.len() as nat),
                rs == self.reactants@,
                counts == state@,
                k <= rs.len(),
                forall|i: int| 0 <= i < rs.len()
                    ==> counts[#[trigger] rs[i].index as int] >= rs[i].quantity,
                propensity_weight(*self, counts)
                    == acc * stoich_factor(rs.skip(k as int), counts),
                acc >= 1,
            decreases rs.len() - k,
        {
            let entry = self.reactants[k];
            let ghost c = spec_binomial(counts[entry.index as int] as nat, entry.quantity as nat);
            let ghost rest = stoich_factor(rs.skip(k as int + 1), counts);
            proof {
                lemma_stoich_factor_skip_unfold(rs, counts, k as int);
                assert(forall|i: int| 0 <= i < rs.skip(k as int + 1).len()
                    ==> #[trigger] rs.skip(k as int + 1)[i] == rs[i + k + 1]);
                lemma_stoich_factor_pos(rs.skip(k as int + 1), counts);
                lemma_binomial_pos(counts[entry.index as int] as nat, entry.quantity as nat);
            }
            let cb = binomial_checked(state[entry.index], entry.quantity);
            match cb {
                None => {
                    proof {
                        // weight == acc * (c * rest) with acc, rest >= 1 and
                        // c beyond the range.
                        assert(acc * (c * rest) > u64::MAX) by (nonlinear_arith)
                            requires
                                acc >= 1,
                                rest >= 1,
                                c > u64::MAX;
                        assert(acc * (c * rest) == acc * stoich_factor(rs.skip(k as int), counts));
                    }
                    return None;
                },
                Some(cv) => {
                    proof {
                        lemma_mul_upper_bound(acc as int, u64::MAX as int, cv as int, u64::MAX as int);
                        assert(acc * cv >= 1) by (nonlinear_arith)
                            requires
                                acc >= 1,
                                cv >= 1;
                    }
                    let prod: u128 = (acc as u128) * (cv as u128);
                    if prod > u64::MAX as u128 {
                        proof {
                            assert(acc * (c * rest) > u64::MAX) by (nonlinear_arith)
                                requires
                                    rest >= 1,
                                    acc * c > u64::MAX;
                            assert(acc * (c * rest)
                                == acc * stoich_factor(rs.skip(k as int), counts));
                        }
                        return None;
                    }
                    proof {
                        assert((acc * c) * rest == acc * (c * rest)) by (nonlinear_arith);
                        assert(acc * (c * rest) == acc * stoich_factor(rs.skip(k as int), counts));
                    }
                    acc = prod as u64;
                    k = k + 1;
                },
            }
        }
        proof {
            assert(rs.skip(rs.len() as int) =~= Seq::<Reactant>::empty());
            assert(stoich_factor(rs.skip(rs.len() as int), counts) == 1);
            assert(acc * 1 == acc) by (nonlinear_arith);
        }
        Some(acc)
    }

    /// The propensity of this reaction for the given counts, in the common
    /// rate unit, for states whose propensity fits in a `u64`. Callers that
    /// cannot establish the bound use [`Reaction::propensity_checked`].
    pub fn propensity(&self, state: &Vec<u64>) -> (w: u64)
        requires
            self.wf(state@.len() as nat),
            propensity_weight(*self, state@) <= u64::MAX,
        ensures
            w == propensity_weight(*self, state@),
    {
        self.propensity_checked(state).unwrap()
    }
}

/// One reactant entry applied: the count at its index lowered by its
/// quantity.
pub open spec fn consume_one(counts: Seq<u64>, r: Reactant) -> Seq<u64> {
    counts.update(r.index as int, (counts[r.index as int] - r.quantity) as u64)
}

/// The reactant list can be applied in order: each index is in range and
/// each subtraction finds enough molecules.
pub open spec fn consume_ok(counts: Seq<u64>, rs: Seq<Reactant>) -> bool
    decreases rs.len(),
{
    rs.len() == 0 || {
        &&& rs[0].index < counts.len()
        &&& counts[rs[0].index as int] >= rs[0].quantity
        &&& consume_ok(consume_one(counts, rs[0]), rs.drop_first())
    }
}

/// The counts after all reactant entries are applied in order.
pub open spec fn consume_all(counts: Seq<u64>, rs: Seq<Reactant>) -> Seq<u64>
    decreases rs.len(),
{
    if rs.len() == 0 {
        counts
    } else {
        consume_all(consume_one(counts, rs[0]), rs.drop_first())
    }
}

/// One product entry applied: the count at its index raised by its quantity.
pub open spec fn produce_one(counts: Seq<u64>, p: Product) -> Seq<u64> {
    counts.update(p.index as int, (counts[p.index as int] + p.quantity) as u64)
}

/// The product list can be applied in order: each index is in range and no
/// addition leaves the `u64` range.
pub open spec fn produce_ok(counts: Seq<u64>, ps: Seq<Product>) -> bool
    decreases ps.len(),
{
    ps.len() == 0 || {
        &&& ps[0].index < counts.len()
        &&& counts[ps[0].index as int] + ps[0].quantity <= u64::MAX
        &&& produce_ok(produce_one(counts, ps[0]), ps.drop_first())
    }
}

/// The counts after all product entries are applied in order.
pub open spec fn produce_all(counts: Seq<u64>, ps: Seq<Product>) -> Seq<u64>
    decreases ps.len(),
{
    if ps.len() == 0 {
        counts
    } else {
        produce_all(produce_one(counts, ps[0]), ps.drop_first())
    }
}

/// The reaction can fire: reactants can be consumed, and the products then
/// fit in the counts.
pub open spec fn fire_ok(counts: Seq<u64>, r: Reaction) -> bool {
    consume_ok(counts, r.reactants@) && produce_ok(consume_all(counts, r.reactants@), r.products@)
}

/// The counts after the reaction fires: reactants consumed, products added.
pub open spec fn fire(counts: Seq<u64>, r: Reaction) -> Seq<u64> {
    produce_all(consume_all(counts, r.reactants@), r.products@)
}

/// Consuming keeps the length of the count vector.
pub proof fn lemma_consume_all_len(counts: Seq<u64>, rs: Seq<Reactant>)
    requires
        consume_ok(counts, rs),
    ensures
        consume_all(counts, rs).len() == counts.len(),
    decreases rs.len(),
{
    if rs.len() > 0 {
        lemma_consume_all_len(consume_one(counts, rs[0]), rs.drop_first());
    }
}

/// Producing keeps the length of the count vector.
pub proof fn lemma_produce_all_len(counts: Seq<u64>, ps: Seq<Product>)
    requires
        produce_ok(counts, ps),
    ensures
        produce_all(counts, ps).len() == counts.len(),
    decreases ps.len(),
{
    if ps.len() > 0 {
        lemma_produce_all_len(produce_one(counts, ps[0]), ps.drop_first());
    }
}

/// A violated precondition of `System::trigger_reaction`.
///
/// Each one marks a caller that asked for a mutation inconsistent with the
/// state it was computed from (or beyond the machine range): such a request
/// is a programming error, reported rather than applied, and the system is
/// left untouched.
#[derive(Clone, Copy, Debug, PartialEq, Eq, Structural)]
pub enum TriggerError {
    /// The reaction index is not a valid index into the reaction list.
    InvalidIndex,
    /// The requested reaction time lies before the current clock.
    TimeInPast,
    /// Some reactant entry finds fewer molecules than it must consume.
    InsufficientReactants,
    /// Some product entry would push a species count past the `u64` range.
    CountOverflow,
}

/// All species names are distinct, so the name-to-index reading of the list
/// is injective: together with positional lookup this makes the mapping a
/// bijection onto `0..num_species`.
pub open spec fn names_distinct(names: Seq<String>) -> bool {
    forall|i: int, j: int| 0 <= i < j < names.len() ==> names[i]@ != names[j]@
}

/// The simulation state: species counts, the species names (position is the
/// species index), the ordered reaction list, the clock (an order-preserving
/// integer encoding of the simulation time, `0` before the first reaction)
/// and the index of the last reaction fired (`None` before the first).
#[derive(Debug)]
pub struct System {
    pub state: Vec<u64>,
    pub idx_to_name: Vec<String>,
    pub reactions: Vec<Reaction>,
    pub time_of_last_reaction: u64,
    pub last_reaction: Option<usize>,
}

impl System {
    /// The system invariant: one name per species, all names distinct, every
    /// reaction well-formed against the species range, and the last-fired
    /// index, once set, valid.
    pub open spec fn wf(self) -> bool {
        &&& self.state@.len() == self.idx_to_name@.len()
        &&& names_distinct(self.idx_to_name@)
        &&& forall|j: int| 0 <= j < self.reactions@.len()
            ==> (#[trigger] self.reactions@[j]).wf(self.state@.len() as nat)
        &&& match self.last_reaction {
            Some(j) => j < self.reactions@.len(),
            None => true,
        }
    }

    /// An empty system: no species, no reactions, clock at zero, nothing
    /// fired yet.
    pub fn new() -> (s: System)
        ensures
            s.state@.len() == 0,
            s.idx_to_name@.len() == 0,
            s.reactions@.len() == 0,
            s.time_of_last_reaction == 0,
            s.last_reaction is None,
            s.wf(),
    {
        System {
            state: Vec::new(),
            idx_to_name: Vec::new(),
            reactions: Vec::new(),
            time_of_last_reaction: 0,
            last_reaction: None,
        }
    }

    /// The species index of a name, `None` when the name is unknown. The
    /// inverse direction of `idx_to_name`; on a well-formed system the two
    /// directions agree.
    pub fn name_to_idx(&self, name: &String) -> (r: Option<usize>)
        ensures
            match r {
                Some(i) => i < self.idx_to_name@.len() && self.idx_to_name@[i as int]@ == name@,
                None => forall|i: int|
                    0 <= i < self.idx_to_name@.len() ==> self.idx_to_name@[i]@ != name@,
            },
    {
        let mut i: usize = 0;
        while i < self.idx_to_name.len()
            invariant
                i <= self.idx_to_name@.len(),
                forall|l: int| 0 <= l < i ==> self.idx_to_name@[l]@ != name@,
            decreases self.idx_to_name@.len() - i,
        {
            if self.idx_to_name[i] == *name {
                return Some(i);
            }
            i = i + 1;
        }
        None
    }

    /// Appends a species with its initial count, unless the name is already
    /// taken; reports whether the species was added.
    pub fn add_species(&mut self, name: String, quantity: u64) -> (added: bool)
        requires
            old(self).wf(),
        ensures
            final(self).wf(),
            added == (forall|i: int|
                0 <= i < old(self).idx_to_name@.len() ==> old(self).idx_to_name@[i]@ != name@),
            added ==> {
                &&& final(self).idx_to_name@ == old(self).idx_to_name@.push(name)
                &&& final(self).state@ == old(self).state@.push(quantity)
            },
            !added ==> *final(self) == *old(self),
            final(self).reactions == old(self).reactions,
            final(self).time_of_last_reaction == old(self).time_of_last_reaction,
            final(self).last_reaction == old(self).last_reaction,
    {
        match self.name_to_idx(&name) {
            Some(_) => false,
            None => {
                self.idx_to_name.push(name);
                self.state.push(quantity);
                return true;
            },
        }
    }

    /// Builds a reaction from a description whose species are given by
    /// name, resolving each name against the system's name-index mapping:
    /// `inputs` and `outputs` are (species name, quantity) pairs, in order.
    /// `None` when some name is unknown — a configuration error for the
    /// loader to report.
    pub fn resolve_reaction(
        &self,
        rate_weight: u64,
        inputs: &Vec<(String, u64)>,
        outputs: &Vec<(String, u64)>,
    ) -> (r: Option<Reaction>)
        ensures
            match r {
                Some(reaction) => {
                    &&& reaction.rate_weight == rate_weight
                    &&& reaction.reactants@.len() == inputs@.len()
                    &&& forall|k: int| 0 <= k < inputs@.len() ==> {
                        &&& (#[trigger] reaction.reactants@[k]).quantity == inputs@[k].1
                        &&& reaction.reactants@[k].index < self.idx_to_name@.len()
                        &&& self.idx_to_name@[reaction.reactants@[k].index as int]@
                            == inputs@[k].0@
                    }
                    &&& reaction.products@.len() == outputs@.len()
                    &&& forall|k: int| 0 <= k < outputs@.len() ==> {
                        &&& (#[trigger] reaction.products@[k]).quantity == outputs@[k].1
                        &&& reaction.products@[k].index < self.idx_to_name@.len()
                        &&& self.idx_to_name@[reaction.products@[k].index as int]@
                            == outputs@[k].0@
                    }
                },
                None => {
                    ||| exists|k: int| 0 <= k < inputs@.len()
                        && forall|i: int| 0 <= i < self.idx_to_name@.len()
                            ==> self.idx_to_name@[i]@ != (#[trigger] inputs@[k].0)@
                    ||| exists|k: int| 0 <= k < outputs@.len()
                        && forall|i: int| 0 <= i < self.idx_to_name@.len()
                            ==> self.idx_to_name@[i]@ != (#[trigger] outputs@[k].0)@
                },
            },
    {
        let mut reactants: Vec<Reactant> = Vec::new();
        let mut k: usize = 0;
        while k < inputs.len()
            invariant
                k <= inputs@.len(),
                reactants@.len() == k,
                forall|l: int| 0 <= l < k ==> {
                    &&& (#[trigger] reactants@[l]).quantity == inputs@[l].1
                    &&& reactants@[l].index < self.idx_to_name@.len()
                    &&& self.idx_to_name@[reactants@[l].index as int]@ == inputs@[l].0@
                },
            decreases inputs@.len() - k,
        {
            let pair = &inputs[k];
            match self.name_to_idx(&pair.0) {
                Some(index) => {
                    reactants.push(Reactant { index, quantity: pair.1 });
                },
                None => {
                    return None;
                },
            }
            k = k + 1;
        }
        let mut products: Vec<Product> = Vec::new();
        let mut k: usize = 0;
        while k < outputs.len()
            invariant
                k <= outputs@.len(),
                products@.len() == k,
                forall|l: int| 0 <= l < k ==> {
                    &&& (#[trigger] products@[l]).quantity == outputs@[l].1
                    &&& products@[l].index < self.idx_to_name@.len()
                    &&& self.idx_to_name@[products@[l].index as int]@ == outputs@[l].0@
                },
            decreases outputs@.len() - k,
        {
            let pair = &outputs[k];
            match self.name_to_idx(&pair.0) {
                Some(index) => {
                    products.push(Product { index, quantity: pair.1 });
                },
                None => {
                    return None;
                },
            }
            k = k + 1;
        }
        Some(Reaction { rate_weight, reactants, products })
    }

    /// Appends a reaction, unless it is malformed against the current
    /// species range; reports whether the reaction was added.
    pub fn add_reaction(&mut self, reaction: Reaction) -> (added: bool)
        requires
            old(self).wf(),
        ensures
            final(self).wf(),
            added == reaction.wf(old(self).state@.len() as nat),
            added ==> final(self).reactions@ == old(self).reactions@.push(reaction),
            !added ==> *final(self) == *old(self),
            final(self).state == old(self).state,
            final(self).idx_to_name == old(self).idx_to_name,
            final(self).time_of_last_reaction == old(self).time_of_last_reaction,
            final(self).last_reaction == old(self).last_reaction,
    {
        if reaction.rate_weight < 1 {
            return false;
        }
        let n = self.state.len();
        let mut i: usize = 0;
        while i < reaction.reactants.len()
            invariant
                *self == *old(self),
                old(self).wf(),
                n == self.state@.len(),
                i <= reaction.reactants@.len(),
                forall|l: int| 0 <= l < i ==> (#[trigger] reaction.reactants@[l]).wf(n as nat),
            decreases reaction.reactants@.len() - i,
        {
            let entry = reaction.reactants[i];
            if entry.index >= n || entry.quantity < 1 {
                return false;
            }
            i = i + 1;
        }
        let mut i: usize = 0;
        while i < reaction.products.len()
            invariant
                *self == *old(self),
                old(self).wf(),
                n == self.state@.len(),
                i <= reaction.products@.len(),
                forall|l: int| 0 <= l < i ==> (#[trigger] reaction.products@[l]).wf(n as nat),
            decreases reaction.products@.len() - i,
        {
            let entry = reaction.products[i];
            if entry.index >= n || entry.quantity < 1 {
                return false;
            }
            i = i + 1;
        }
        self.reactions.push(reaction);
        true
    }

    /// The species counts as comma-separated decimal numbers, in index
    /// order: the state portion of one trace record.
    pub fn serialize_state(&self) -> (s: String)
        ensures
            s@ == crate::decimal::csv_of_counts(self.state@),
    {
        crate::decimal::counts_to_csv(&self.state)
    }

    /// Applies the reaction at `reaction_idx` and advances the clock to
    /// `reaction_time`.
    ///
    /// The preconditions are the caller's contract: the time may not move
    /// backwards, the index must be valid, every reactant must find enough
    /// molecules and no product may push a count past the `u64` range.
    /// Unverified callers must check them before calling and treat a
    /// violation as a programming error, as the selection and the state the
    /// propensities were computed from must always agree.
    pub fn trigger_reaction(&mut self, reaction_time: u64, reaction_idx: usize)
        requires
            old(self).wf(),
            old(self).time_of_last_reaction <= reaction_time,
            reaction_idx < old(self).reactions@.len(),
            fire_ok(old(self).state@, old(self).reactions@[reaction_idx as int]),
        ensures
            final(self).wf(),
            final(self).state@
                == fire(old(self).state@, old(self).reactions@[reaction_idx as int]),
            final(self).state@.len() == old(self).state@.len(),
            final(self).time_of_last_reaction == reaction_time,
            final(self).last_reaction == Some(reaction_idx),
            final(self).idx_to_name == old(self).idx_to_name,
            final(self).reactions == old(self).reactions,
    {
        let ghost orig = self.state@;
        let ghost rs = self.reactions@[reaction_idx as int].reactants@;
        let ghost ps = self.reactions@[reaction_idx as int].products@;

        let mut k: usize = 0;
        proof {
            assert(rs.skip(0) =~= rs);
        }
        while k < self.reactions[reaction_idx].reactants.len()
            invariant
                reaction_idx < self.reactions@.len(),
                rs == self.reactions@[reaction_idx as int].reactants@,
                k <= rs.len(),
                self.state@.len() == orig.len(),
                consume_ok(self.state@, rs.skip(k as int)),
                consume_all(orig, rs) == consume_all(self.state@, rs.skip(k as int)),
                self.idx_to_name == old(self).idx_to_name,
                self.reactions == old(self).reactions,
                self.time_of_last_reaction == old(self).time_of_last_reaction,
                self.last_reaction == old(self).last_reaction,
            decreases rs.len() - k,
        {
            let entry = self.reactions[reaction_idx].reactants[k];
            proof {
                assert(rs.skip(k as int)[0] == rs[k as int]);
                assert(rs.skip(k as int).drop_first() =~= rs.skip(k as int + 1));
            }
            let cur = self.state[entry.index];
            self.state[entry.index] = cur - entry.quantity;
            k = k + 1;
        }
        proof {
            assert(rs.skip(rs.len() as int) =~= Seq::<Reactant>::empty());
            assert(self.state@ == consume_all(orig, rs));
        }

        let ghost mid = self.state@;
        let mut k: usize = 0;
        proof {
            assert(ps.skip(0) =~= ps);
        }
        while k < self.reactions[reaction_idx].products.len()
            invariant
                reaction_idx < self.reactions@.len(),
                ps == self.reactions@[reaction_idx as int].products@,
                k <= ps.len(),
                self.state@.len() == mid.len(),
                produce_ok(self.state@, ps.skip(k as int)),
                produce_all(mid, ps) == produce_all(self.state@, ps.skip(k as int)),
                self.idx_to_name == old(self).idx_to_name,
                self.reactions == old(self).reactions,
                self.time_of_last_reaction == old(self).time_of_last_reaction,
                self.last_reaction == old(self).last_reaction,
            decreases ps.len() - k,
        {
            let entry = self.reactions[reaction_idx].products[k];
            proof {
                assert(ps.skip(k as int)[0] == ps[k as int]);
                assert(ps.skip(k as int).drop_first() =~= ps.skip(k as int + 1));
            }
            let cur = self.state[entry.index];
            self.state[entry.index] = cur + entry.quantity;
            k = k + 1;
        }
        proof {
            assert(ps.skip(ps.len() as int) =~= Seq::<Product>::empty());
            assert(self.state@ == produce_all(mid, ps));
        }

        self.time_of_last_reaction = reaction_time;
        self.last_reaction = Some(reaction_idx);
    }

    /// Checks the preconditions of `trigger_reaction` against the current
    /// state, without mutating anything: which violation, if any, the call
    /// would commit. The error conditions are mutually exclusive and
    /// checked in this order: index, time, reactants, products.
    pub fn check_trigger(&self, reaction_time: u64, reaction_idx: usize)
        -> (r: Result<(), TriggerError>)
        requires
            self.wf(),
        ensures
            ({
                let counts = self.state@;
                let reaction = self.reactions@[reaction_idx as int];
                match r {
                    Ok(()) => reaction_idx < self.reactions@.len()
                        && self.time_of_last_reaction <= reaction_time
                        && fire_ok(counts, reaction),
                    Err(e) => match e {
                        TriggerError::InvalidIndex => reaction_idx >= self.reactions@.len(),
                        TriggerError::TimeInPast => reaction_idx < self.reactions@.len()
                            && reaction_time < self.time_of_last_reaction,
                        TriggerError::InsufficientReactants => reaction_idx
                            < self.reactions@.len()
                            && self.time_of_last_reaction <= reaction_time
                            && !consume_ok(counts, reaction.reactants@),
                        TriggerError::CountOverflow => reaction_idx < self.reactions@.len()
                            && self.time_of_last_reaction <= reaction_time
                            && consume_ok(counts, reaction.reactants@)
                            && !produce_ok(consume_all(counts, reaction.reactants@),
                                reaction.products@),
                    },
                }
            }),
    {
        if reaction_idx >= self.reactions.len() {
            return Err(TriggerError::InvalidIndex);
        }
        if reaction_time < self.time_of_last_reaction {
            return Err(TriggerError::TimeInPast);
        }

        let ghost counts = self.state@;
        let ghost rs = self.reactions@[reaction_idx as int].reactants@;
        let ghost ps = self.reactions@[reaction_idx as int].products@;

        let mut scratch: Vec<u64> = Vec::new();
        let mut i: usize = 0;
        while i < self.state.len()
            invariant
                counts == self.state@,
                i <= counts.len(),
                scratch@ =~= counts.take(i as int),
            decreases counts.len() - i,
        {
            scratch.push(self.state[i]);
            i = i + 1;
        }
        proof {
            assert(counts.take(counts.len() as int) =~= counts);
        }

        let mut k: usize = 0;
        proof {
            assert(rs.skip(0) =~= rs);
        }
        while k < self.reactions[reaction_idx].reactants.len()
            invariant
                self.wf(),
                reaction_idx < self.reactions@.len(),
                self.time_of_last_reaction <= reaction_time,
                counts == self.state@,
                rs == self.reactions@[reaction_idx as int].reactants@,
                k <= rs.len(),
                scratch@.len() == counts.len(),
                consume_ok(counts, rs) <==> consume_ok(scratch@, rs.skip(k as int)),
                consume_ok(counts, rs)
                    ==> consume_all(counts, rs) == consume_all(scratch@, rs.skip(k as int)),
            decreases rs.len() - k,
        {
            let entry = self.reactions[reaction_idx].reactants[k];
            proof {
                assert(rs.skip(k as int)[0] == rs[k as int]);
                assert(rs.skip(k as int).drop_first() =~= rs.skip(k as int + 1));
            }
            let cur = scratch[entry.index];
            if cur < entry.quantity {
                return Err(TriggerError::InsufficientReactants);
            }
            scratch[entry.index] = cur - entry.quantity;
            k = k + 1;
        }
        proof {
            assert(rs.skip(rs.len() as int) =~= Seq::<Reactant>::empty());
        }

        let mut k: usize = 0;
        proof {
            assert(ps.skip(0) =~= ps);
        }
        while k < self.reactions[reaction_idx].products.len()
            invariant
                self.wf(),
                reaction_idx < self.reactions@.len(),
                self.time_of_last_reaction <= reaction_time,
                counts == self.state@,
                rs == self.reactions@[reaction_idx as int].reactants@,
                ps == self.reactions@[reaction_idx as int].products@,
                k <= ps.len(),
                scratch@.len() == counts.len(),
                consume_ok(counts, rs),
                produce_ok(consume_all(counts, rs), ps)
                    <==> produce_ok(scratch@, ps.skip(k as int)),
            decreases ps.len() - k,
        {
            let entry = self.reactions[reaction_idx].products[k];
            proof {
                assert(ps.skip(k as int)[0] == ps[k as int]);
                assert(ps.skip(k as int).drop_first() =~= ps.skip(k as int + 1));
            }
            let cur = scratch[entry.index];
            if entry.quantity > u64::MAX - cur {
                return Err(TriggerError::CountOverflow);
            }
            scratch[entry.index] = cur + entry.quantity;
            k = k + 1;
        }
        proof {
            assert(ps.skip(ps.len() as int) =~= Seq::<Product>::empty());
        }
        Ok(())
    }

    /// `trigger_reaction` behind its own precondition check: applies the
    /// reaction when the mutation contract holds and reports the violation,
    /// leaving the system untouched, when it does not. For drivers that
    /// cannot establish the contract themselves.
    pub fn trigger_reaction_checked(&mut self, reaction_time: u64, reaction_idx: usize)
        -> (r: Result<(), TriggerError>)
        requires
            old(self).wf(),
        ensures
            final(self).wf(),
            ({
                let counts = old(self).state@;
                let reaction = old(self).reactions@[reaction_idx as int];
                match r {
                    Ok(()) => reaction_idx < old(self).reactions@.len()
                        && old(self).time_of_last_reaction <= reaction_time
                        && fire_ok(counts, reaction)
                        && final(self).state@ == fire(counts, reaction)
                        && final(self).time_of_last_reaction == reaction_time
                        && final(self).last_reaction == Some(reaction_idx),
                    Err(e) => *final(self) == *old(self) && match e {
                        TriggerError::InvalidIndex => reaction_idx >= old(self).reactions@.len(),
                        TriggerError::TimeInPast => reaction_idx < old(self).reactions@.len()
                            && reaction_time < old(self).time_of_last_reaction,
                        TriggerError::InsufficientReactants => reaction_idx
                            < old(self).reactions@.len()
                            && old(self).time_of_last_reaction <= reaction_time
                            && !consume_ok(counts, reaction.reactants@),
                        TriggerError::CountOverflow => reaction_idx
                            < old(self).reactions@.len()
                            && old(self).time_of_last_reaction <= reaction_time
                            && consume_ok(counts, reaction.reactants@)
                            && !produce_ok(consume_all(counts, reaction.reactants@),
                                reaction.products@),
                    },
                }
            }),
            final(self).idx_to_name == old(self).idx_to_name,
            final(self).reactions == old(self).reactions,
    {
        match self.check_trigger(reaction_time, reaction_idx) {
            Ok(()) => {
                self.trigger_reaction(reaction_time, reaction_idx);
                Ok(())
            },
            Err(e) => Err(e),
        }
    }
}

} // verus!
