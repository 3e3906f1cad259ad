//! What the parties compute from the opened value and their mask shares.

use super::triangle::pascal_entry;
use crate::field::{power, Ring};
use vstd::prelude::*;

verus! {

/// The first `m` terms of the expansion of a `k`-th power: the sum over
/// `i < m` of `pascal(k, i) * dp[k - i] * a[i]`.
pub open spec fn weighted_sum<T: Ring>(k: nat, dp: Seq<T>, a: Seq<T>, m: nat) -> T
    decreases m,
{
    if m == 0 {
        T::zero_elem()
    } else {
        weighted_sum(k, dp, a, (m - 1) as nat).plus(
            pascal_entry::<T>(k, (m - 1) as nat).times(dp[k - (m - 1)]).times(a[m - 1]),
        )
    }
}

/// A party's share of the `k`-th power of the key, from the powers `dp` of
/// the opened value and the party's mask shares `a`.
pub open spec fn power_share<T: Ring>(dp: Seq<T>, a: Seq<T>, k: nat) -> T {
    weighted_sum(k, dp, a, k + 1)
}

/// A party's shares of the powers `1` to `n` of the key.
pub open spec fn power_shares<T: Ring>(dp: Seq<T>, a: Seq<T>, n: nat) -> Seq<T> {
    Seq::new(n, |j: int| power_share(dp, a, (j + 1) as nat))
}

/// The sum over `i < m` of `x[i] * y[i]`.
pub open spec fn dot<T: Ring>(x: Seq<T>, y: Seq<T>, m: nat) -> T
    decreases m,
{
    if m == 0 {
        T::zero_elem()
    } else {
        dot(x, y, (m - 1) as nat).plus(x[m - 1].times(y[m - 1]))
    }
}

/// The hash of `blocks` under the key `h`: the sum of `blocks[i] * h^(i+1)`.
pub open spec fn ghash_value<T: Ring>(blocks: Seq<T>, h: T) -> T {
    dot(blocks, Seq::new(blocks.len(), |i: int| power(h, (i + 1) as nat)), blocks.len())
}

pub proof fn lemma_weighted_sum_valid<T: Ring>(k: nat, dp: Seq<T>, a: Seq<T>, m: nat)
    ensures
        weighted_sum(k, dp, a, m).valid(),
    decreases m,
{
    let z = T::zero_elem();
    T::lemma_results_valid(z, z);
    if m > 0 {
        T::lemma_results_valid(
            weighted_sum(k, dp, a, (m - 1) as nat),
            pascal_entry::<T>(k, (m - 1) as nat).times(dp[k - (m - 1)]).times(a[m - 1]),
        );
    }
}

pub proof fn lemma_dot_valid<T: Ring>(x: Seq<T>, y: Seq<T>, m: nat)
    ensures
        dot(x, y, m).valid(),
    decreases m,
{
    let z = T::zero_elem();
    T::lemma_results_valid(z, z);
    if m > 0 {
        T::lemma_results_valid(dot(x, y, (m - 1) as nat), x[m - 1].times(y[m - 1]));
    }
}

} // verus!
