//! Binomial coefficients over machine integers.
//!
//! A reaction that needs `k` molecules of a species of which `n` are present
//! can pick them in `C(n, k)` ways; the propensity of the reaction scales
//! with that count. `C(n, k)` is the true binomial coefficient: `0` whenever
//! `k > n`, `1` when `k = 0`, `n` when `k = 1`.

use vstd::prelude::*;

verus! {

use vstd::arithmetic::div_mod::lemma_div_multiples_vanish;
use vstd::arithmetic::mul::lemma_mul_upper_bound;

/// The binomial coefficient `C(n, k)`, by Pascal's rule.
pub open spec fn spec_binomial(n: nat, k: nat) -> nat
    decreases n, k,
{
    if k == 0 {
        1
    } else if n == 0 {
        0
    } else {
        spec_binomial((n - 1) as nat, (k - 1) as nat) + spec_binomial((n - 1) as nat, k)
    }
}

/// `C(n, k) = 0` whenever `k > n`: there is no way to pick more molecules
/// than are present.
pub proof fn lemma_binomial_above_n(n: nat, k: nat)
    requires
        k > n,
    ensures
        spec_binomial(n, k) == 0,
    decreases n,
{
    if n > 0 {
        lemma_binomial_above_n((n - 1) as nat, (k - 1) as nat);
        lemma_binomial_above_n((n - 1) as nat, k);
    }
}

/// `C(n, 0) = 1`: the empty pick.
pub proof fn lemma_binomial_zero(n: nat)
    ensures
        spec_binomial(n, 0) == 1,
{
}

/// `C(n, 1) = n`: one molecule out of `n`.
pub proof fn lemma_binomial_one(n: nat)
    ensures
        spec_binomial(n, 1) == n,
    decreases n,
{
    if n == 0 {
        assert(spec_binomial(0, 1) == 0);
    } else {
        lemma_binomial_one((n - 1) as nat);
        assert(spec_binomial(n, 1)
            == spec_binomial((n - 1) as nat, 0) + spec_binomial((n - 1) as nat, 1));
    }
}

/// `C(n, k) >= 1` whenever `k <= n`.
pub proof fn lemma_binomial_pos(n: nat, k: nat)
    requires
        k <= n,
    ensures
        spec_binomial(n, k) >= 1,
    decreases n,
{
    if k > 0 {
        lemma_binomial_pos((n - 1) as nat, (k - 1) as nat);
    }
}

/// Absorbing one row: `(n - k) * C(n, k) == n * C(n - 1, k)`.
proof fn lemma_binomial_shift(n: nat, k: nat)
    requires
        1 <= n,
        k <= n,
    ensures
        (n - k) * spec_binomial(n, k) == n * spec_binomial((n - 1) as nat, k),
    decreases n,
{
    if k == 0 {
        assert((n - 0) * spec_binomial(n, 0) == n * spec_binomial((n - 1) as nat, 0));
    } else if k == n {
        lemma_binomial_above_n((n - 1) as nat, k);
        assert((n - k) * spec_binomial(n, k) == 0) by (nonlinear_arith)
            requires n == k;
    } else {
        // 1 <= k < n, hence n >= 2.
        let a = spec_binomial((n - 1) as nat, (k - 1) as nat);
        let b = spec_binomial((n - 1) as nat, k);
        let c = spec_binomial((n - 2) as nat, (k - 1) as nat);
        let d = spec_binomial((n - 2) as nat, k);
        assert(spec_binomial(n, k) == a + b);
        assert(b == c + d);
        lemma_binomial_shift((n - 1) as nat, (k - 1) as nat);
        assert((n - k) * a == (n - 1) * c);
        lemma_binomial_shift((n - 1) as nat, k);
        assert((n - 1 - k) * b == (n - 1) * d);
        assert((n - k) * (a + b) == n * b) by (nonlinear_arith)
            requires
                (n - k) * a == (n - 1) * c,
                (n - 1 - k) * b == (n - 1) * d,
                b == c + d;
    }
}

/// Stepping along a row: `(k + 1) * C(n, k + 1) == (n - k) * C(n, k)`.
proof fn lemma_binomial_step(n: nat, k: nat)
    requires
        k <= n,
    ensures
        (k + 1) * spec_binomial(n, (k + 1) as nat) == (n - k) * spec_binomial(n, k),
    decreases n,
{
    if k == n {
        lemma_binomial_above_n(n, (k + 1) as nat);
        assert((n - k) * spec_binomial(n, k) == 0) by (nonlinear_arith)
            requires n == k;
    } else {
        // k < n, hence n >= 1.
        let b = spec_binomial((n - 1) as nat, k);
        let e = spec_binomial((n - 1) as nat, (k + 1) as nat);
        assert(spec_binomial(n, (k + 1) as nat) == b + e);
        lemma_binomial_step((n - 1) as nat, k);
        assert((k + 1) * e == (n - 1 - k) * b);
        lemma_binomial_shift(n, k);
        assert((n - k) * spec_binomial(n, k) == n * b);
        assert((k + 1) * (b + e) == n * b) by (nonlinear_arith)
            requires
                (k + 1) * e == (n - 1 - k) * b,
                n >= k + 1;
    }
}

/// Growing `n` and `k` together: `(i + 1) * C(m + 1, i + 1) == (m + 1) * C(m, i)`.
/// This is the exact-division step the iterative computation rests on.
proof fn lemma_binomial_next(m: nat, i: nat)
    requires
        i <= m,
    ensures
        (i + 1) * spec_binomial((m + 1) as nat, (i + 1) as nat) == (m + 1) * spec_binomial(m, i),
{
    lemma_binomial_step((m + 1) as nat, i);
    lemma_binomial_shift((m + 1) as nat, i);
}

/// Along the diagonal towards `C(n, k)` the coefficients never decrease:
/// `C(n - k + i, i) <= C(n, k)` for `i <= k`. This bounds every intermediate
/// value of the iterative computation by its final result.
proof fn lemma_binomial_diag_le(n: nat, k: nat, i: nat)
    requires
        i <= k,
        k <= n,
    ensures
        spec_binomial((n - k + i) as nat, i) <= spec_binomial(n, k),
    decreases k - i,
{
    if i < k {
        let m = (n - k + i) as nat;
        assert(spec_binomial((m + 1) as nat, (i + 1) as nat)
            == spec_binomial(m, i) + spec_binomial(m, (i + 1) as nat));
        lemma_binomial_diag_le(n, k, (i + 1) as nat);
    }
}

/// `C(n, k)`, or `None` when the coefficient does not fit in a `u64`.
/// Total: every pair of arguments is answered.
pub fn binomial_checked(n: u64, k: u64) -> (r: Option<u64>)
    ensures
        match r {
            Some(c) => c == spec_binomial(n as nat, k as nat),
            None => spec_binomial(n as nat, k as nat) > u64::MAX,
        },
{
    if k > n {
        proof {
            lemma_binomial_above_n(n as nat, k as nat);
        }
        return Some(0);
    }
    let mut coeff: u64 = 1;
    let mut i: u64 = 0;
    while i < k
        invariant
            i <= k <= n,
            coeff == spec_binomial((n - k + i) as nat, i as nat),
        decreases k - i,
    {
        let m: u64 = n - k + i;
        assert(m < n);
        proof {
            lemma_binomial_next(m as nat, i as nat);
            lemma_mul_upper_bound(coeff as int, u64::MAX as int, (m + 1) as int, u64::MAX as int);
        }
        let prod: u128 = (coeff as u128) * ((m + 1) as u128);
        proof {
            assert(prod == ((i + 1) as int) * (spec_binomial((m + 1) as nat, (i + 1) as nat) as int));
            lemma_div_multiples_vanish(
                spec_binomial((m + 1) as nat, (i + 1) as nat) as int,
                (i + 1) as int,
            );
        }
        let next: u128 = prod / ((i + 1) as u128);
        assert(next == spec_binomial((m + 1) as nat, (i + 1) as nat));
        if next > u64::MAX as u128 {
            proof {
                lemma_binomial_diag_le(n as nat, k as nat, (i + 1) as nat);
            }
            return None;
        }
        coeff = next as u64;
        i = i + 1;
    }
    Some(coeff)
}

/// The binomial coefficient `C(n, k)`, for arguments whose coefficient fits
/// in a `u64`. Callers that cannot establish the bound use
/// [`binomial_checked`].
pub fn binomial(n: u64, k: u64) -> (c: u64)
    requires
        spec_binomial(n as nat, k as nat) <= u64::MAX,
    ensures
        c == spec_binomial(n as nat, k as nat),
{
    binomial_checked(n, k).unwrap()
}

} // verus!
