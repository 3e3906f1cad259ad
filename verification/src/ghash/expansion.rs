//! The binomial theorem over the field, and the linearity of the sums that
//! the parties compute. Together they show that the two parties' shares of a
//! power of the key add up to that power.

use super::shares::{dot, weighted_sum};
use super::triangle::pascal_entry;
use crate::algebra::{
    lemma_one_times, lemma_regroup, lemma_scaled_terms_add, lemma_times_zero, lemma_zero_plus,
};
use crate::field::{lemma_power_valid, power, Ring};
use vstd::prelude::*;

verus! {

/// The first `m` terms of the expansion of `(d + rho)^k`: the sum over
/// `i < m` of `pascal(k, i) * d^(k - i) * rho^i`.
pub open spec fn expansion<T: Ring>(k: nat, d: T, rho: T, m: nat) -> T
    decreases m,
{
    if m == 0 {
        T::zero_elem()
    } else {
        expansion(k, d, rho, (m - 1) as nat).plus(
            pascal_entry::<T>(k, (m - 1) as nat).times(power(d, (k - (m - 1)) as nat)).times(
                power(rho, (m - 1) as nat),
            ),
        )
    }
}

/// `rho * (s + u * p) = rho * s + u * (rho * p)`.
proof fn lemma_scale_by_rho<T: Ring>(rho: T, s: T, u: T, p: T)
    ensures
        rho.times(s.plus(u.times(p))) == rho.times(s).plus(u.times(rho.times(p))),
{
    T::lemma_times_distributes(rho, s, u.times(p));
    T::lemma_times_associates(rho, u, p);
    T::lemma_times_commutes(rho, u);
    T::lemma_times_associates(u, rho, p);
}

/// `d * (s + (c * w) * p) = d * s + (c * (d * w)) * p`.
proof fn lemma_scale_by_d<T: Ring>(d: T, s: T, c: T, w: T, p: T)
    ensures
        d.times(s.plus(c.times(w).times(p))) == d.times(s).plus(c.times(d.times(w)).times(p)),
{
    T::lemma_times_distributes(d, s, c.times(w).times(p));
    T::lemma_times_associates(d, c.times(w), p);
    T::lemma_times_associates(d, c, w);
    T::lemma_times_commutes(d, c);
    T::lemma_times_associates(c, d, w);
}

/// `((c1 + c2) * x) * p = (c1 * x) * p + (c2 * x) * p`.
proof fn lemma_split_coefficient<T: Ring>(c1: T, c2: T, x: T, p: T)
    ensures
        c1.plus(c2).times(x).times(p) == c1.times(x).times(p).plus(c2.times(x).times(p)),
{
    T::lemma_times_commutes(c1.plus(c2), x);
    T::lemma_times_distributes(x, c1, c2);
    T::lemma_times_commutes(x, c1);
    T::lemma_times_commutes(x, c2);
    T::lemma_times_commutes(c1.times(x).plus(c2.times(x)), p);
    T::lemma_times_distributes(p, c1.times(x), c2.times(x));
    T::lemma_times_commutes(p, c1.times(x));
    T::lemma_times_commutes(p, c2.times(x));
}

/// One more term of the next row's expansion is `rho` times this row's
/// expansion up to the term before plus `d` times it up to this term.
proof fn lemma_expansion_rows<T: Ring>(k: nat, d: T, rho: T, m: nat)
    requires
        d.valid(),
        rho.valid(),
        m <= k,
    ensures
        expansion(k + 1, d, rho, m + 1) == rho.times(expansion(k, d, rho, m)).plus(
            d.times(expansion(k, d, rho, m + 1)),
        ),
    decreases m,
{
    let zero = T::zero_elem();
    let one = T::one_elem();
    T::lemma_results_valid(d, rho);
    if m == 0 {
        let w = power(d, k);
        lemma_power_valid(d, k);
        T::lemma_results_valid(d, w);
        T::lemma_results_valid(one, one);
        assert(power(d, k + 1) == d.times(w));
        assert(power(rho, 0) == one);
        assert(expansion(k + 1, d, rho, 0) == zero);
        assert(expansion(k, d, rho, 0) == zero);
        assert(pascal_entry::<T>(k + 1, 0) == one);
        assert(pascal_entry::<T>(k, 0) == one);
        // left: 0 + (1 * (d * w)) * 1
        lemma_one_times(d.times(w));
        T::lemma_times_one(d.times(w));
        lemma_zero_plus(d.times(w));
        assert(expansion(k + 1, d, rho, 1) == d.times(w));
        // right: rho * 0 + d * (0 + (1 * w) * 1)
        lemma_one_times(w);
        T::lemma_times_one(w);
        lemma_zero_plus(w);
        assert(expansion(k, d, rho, 1) == w);
        lemma_times_zero(rho);
        lemma_zero_plus(d.times(w));
    } else {
        let j = (m - 1) as nat;
        lemma_expansion_rows(k, d, rho, j);
        let a = expansion(k, d, rho, j);
        let b = expansion(k, d, rho, m);
        let c1 = pascal_entry::<T>(k, j);
        let c2 = pascal_entry::<T>(k, m);
        let w = power(d, (k - m) as nat);
        let dw = power(d, (k - j) as nat);
        let pj = power(rho, j);
        let pm = power(rho, m);
        assert(dw == d.times(w));
        assert(pm == rho.times(pj));
        assert(b == a.plus(c1.times(dw).times(pj)));
        assert(expansion(k, d, rho, m + 1) == b.plus(c2.times(w).times(pm)));
        assert(pascal_entry::<T>(k + 1, m) == c1.plus(c2));
        assert(expansion(k + 1, d, rho, m + 1) == expansion(k + 1, d, rho, m).plus(
            c1.plus(c2).times(dw).times(pm),
        ));
        assert(expansion(k + 1, d, rho, m) == rho.times(a).plus(d.times(b)));
        lemma_scale_by_rho(rho, a, c1.times(dw), pj);
        assert(rho.times(b) == rho.times(a).plus(c1.times(dw).times(pm)));
        lemma_scale_by_d(d, b, c2, w, pm);
        assert(d.times(b.plus(c2.times(w).times(pm))) == d.times(b).plus(c2.times(dw).times(pm)));
        lemma_split_coefficient(c1, c2, dw, pm);
        lemma_regroup(rho.times(a), d.times(b), c1.times(dw).times(pm), c2.times(dw).times(pm));
    }
}

/// The full expansion of one row, times `d + rho`, is the full expansion of
/// the next row.
proof fn lemma_expansion_next_row<T: Ring>(k: nat, d: T, rho: T)
    requires
        d.valid(),
        rho.valid(),
    ensures
        expansion(k + 1, d, rho, k + 2) == d.plus(rho).times(expansion(k, d, rho, k + 1)),
{
    let one = T::one_elem();
    lemma_expansion_rows(k, d, rho, k);
    let a = expansion(k, d, rho, k);
    let b = expansion(k, d, rho, k + 1);
    let pk = power(rho, k);
    let pk1 = power(rho, k + 1);
    T::lemma_results_valid(one, one);
    lemma_power_valid(rho, k);
    lemma_power_valid(rho, k + 1);
    lemma_one_times(one);
    lemma_one_times(pk);
    lemma_one_times(pk1);
    assert(power(d, 0) == one);
    assert(pk1 == rho.times(pk));
    assert(pascal_entry::<T>(k, k) == one);
    assert(pascal_entry::<T>(k + 1, k + 1) == one);
    assert(b == a.plus(pk));
    assert(expansion(k + 1, d, rho, k + 2) == expansion(k + 1, d, rho, k + 1).plus(pk1));
    assert(expansion(k + 1, d, rho, k + 1) == rho.times(a).plus(d.times(b)));
    T::lemma_times_distributes(rho, a, pk);
    assert(rho.times(b) == rho.times(a).plus(pk1));
    // (rho a + d b) + pk1 = (rho a + pk1) + d b = rho b + d b = (d + rho) b
    T::lemma_plus_associates(rho.times(a), d.times(b), pk1);
    T::lemma_plus_commutes(d.times(b), pk1);
    T::lemma_plus_associates(rho.times(a), pk1, d.times(b));
    T::lemma_plus_commutes(rho.times(b), d.times(b));
    T::lemma_times_commutes(d.plus(rho), b);
    T::lemma_times_distributes(b, d, rho);
    T::lemma_times_commutes(b, d);
    T::lemma_times_commutes(b, rho);
}

/// The binomial theorem: the full expansion of row `k` is `(d + rho)^k`.
pub proof fn lemma_binomial_theorem<T: Ring>(k: nat, d: T, rho: T)
    requires
        d.valid(),
        rho.valid(),
    ensures
        expansion(k, d, rho, k + 1) == power(d.plus(rho), k),
    decreases k,
{
    let one = T::one_elem();
    if k == 0 {
        T::lemma_results_valid(one, one);
        lemma_one_times(one);
        lemma_zero_plus(one);
        assert(power(d, 0) == one);
        assert(power(rho, 0) == one);
        assert(pascal_entry::<T>(0, 0) == one);
        assert(expansion(0, d, rho, 0) == T::zero_elem());
        assert(expansion(0, d, rho, 1) == T::zero_elem().plus(one.times(one).times(one)));
    } else {
        lemma_binomial_theorem((k - 1) as nat, d, rho);
        lemma_expansion_next_row((k - 1) as nat, d, rho);
    }
}

/// Over the powers of `d` and of `rho`, the weighted sum is the expansion.
pub proof fn lemma_weighted_sum_of_powers<T: Ring>(
    k: nat,
    d: T,
    rho: T,
    dp: Seq<T>,
    rp: Seq<T>,
    m: nat,
)
    requires
        m <= k + 1,
        dp.len() > k,
        rp.len() > k,
        forall|i: int| 0 <= i <= k ==> #[trigger] dp[i] == power(d, i as nat),
        forall|i: int| 0 <= i <= k ==> #[trigger] rp[i] == power(rho, i as nat),
    ensures
        weighted_sum(k, dp, rp, m) == expansion(k, d, rho, m),
    decreases m,
{
    if m > 0 {
        lemma_weighted_sum_of_powers(k, d, rho, dp, rp, (m - 1) as nat);
    }
}

/// The weighted sums of two parties' shares add up to the weighted sum of
/// what the shares add up to.
pub proof fn lemma_weighted_sum_adds<T: Ring>(
    k: nat,
    dp: Seq<T>,
    a: Seq<T>,
    b: Seq<T>,
    c: Seq<T>,
    m: nat,
)
    requires
        forall|i: int| 0 <= i < m ==> #[trigger] c[i] == a[i].plus(b[i]),
    ensures
        weighted_sum(k, dp, a, m).plus(weighted_sum(k, dp, b, m)) == weighted_sum(k, dp, c, m),
    decreases m,
{
    let zero = T::zero_elem();
    if m == 0 {
        T::lemma_results_valid(zero, zero);
        T::lemma_plus_zero(zero);
    } else {
        let j = (m - 1) as nat;
        lemma_weighted_sum_adds(k, dp, a, b, c, j);
        let u = pascal_entry::<T>(k, j).times(dp[k - j]);
        lemma_scaled_terms_add(
            weighted_sum(k, dp, a, j),
            weighted_sum(k, dp, b, j),
            u,
            a[j as int],
            b[j as int],
        );
    }
}

/// The dot products with two parties' shares add up to the dot product with
/// what the shares add up to.
pub proof fn lemma_dot_adds<T: Ring>(x: Seq<T>, a: Seq<T>, b: Seq<T>, c: Seq<T>, m: nat)
    requires
        forall|i: int| 0 <= i < m ==> #[trigger] c[i] == a[i].plus(b[i]),
    ensures
        dot(x, a, m).plus(dot(x, b, m)) == dot(x, c, m),
    decreases m,
{
    let zero = T::zero_elem();
    if m == 0 {
        T::lemma_results_valid(zero, zero);
        T::lemma_plus_zero(zero);
    } else {
        let j = (m - 1) as nat;
        lemma_dot_adds(x, a, b, c, j);
        lemma_scaled_terms_add(dot(x, a, j), dot(x, b, j), x[j as int], a[j as int], b[j as int]);
    }
}

} // verus!
