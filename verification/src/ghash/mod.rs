//! Shares of a polynomial hash under a key that the two parties share
//! additively.
//!
//! The parties hold `h1` and `h2` with `h = h1 + h2`. One batch of oblivious
//! linear evaluation gives them shares of the powers of the product of their
//! masks; the key less that product is opened as `d`, and the binomial
//! expansion of `(d + mask)^k` turns the public powers of `d` and the mask
//! shares into shares of `h^k`.

use crate::algebra::{
    lemma_difference_of_sums, lemma_difference_restored, lemma_power_of_product, lemma_times_zero,
    lemma_zero_plus,
};
use crate::field::{all_valid, difference, power, powers_of, Ring};
use crate::func::ole::{lemma_outputs_share_products, Ole};
use crate::func::Role;
use expansion::{
    lemma_binomial_theorem, lemma_dot_adds, lemma_weighted_sum_adds, lemma_weighted_sum_of_powers,
};
use shares::{dot, ghash_value, power_share, power_shares};
use vstd::prelude::*;

pub mod expansion;
pub mod prover;
pub mod shares;
pub mod triangle;
pub mod verifier_side;

pub use prover::{MaliciousProver, Prover};
pub use triangle::pascal_tri;
pub use verifier_side::Verifier;

verus! {

/// The value that the parties open: the key less the product of the masks.
pub open spec fn opened_value<T: Ring>(h1: T, h2: T, r1: T, r2: T) -> T {
    difference(h1.plus(h2), r1.times(r2))
}

/// What a run leaves in the two states, besides the result.
pub open spec fn run_completed<T: Ring>(
    before_p: Prover<T>,
    before_v: Verifier<T>,
    after_p: Prover<T>,
    after_v: Verifier<T>,
) -> bool {
    let n = before_p.block_num;
    let h = before_p.h1.plus(before_v.h2);
    let d = opened_value(before_p.h1, before_v.h2, before_p.r1, before_v.r2);
    &&& after_p.block_num == n && after_p.h1 == before_p.h1 && after_p.r1 == before_p.r1
    &&& after_v.block_num == n && after_v.h2 == before_v.h2 && after_v.r2 == before_v.r2
    &&& after_p.wf() && after_v.wf()
    &&& after_p.ai@.len() == n + 1 && after_v.bi@.len() == n + 1
    &&& forall|i: int|
        0 <= i <= n ==> (#[trigger] after_p.ai@[i]).plus(after_v.bi@[i]) == power(
            before_p.r1.times(before_v.r2),
            i as nat,
        )
    &&& after_p.d_powers@ == powers_of(d, (n + 1) as nat)
    &&& after_v.d_powers@ == powers_of(d, (n + 1) as nat)
    &&& after_p.hi@ == power_shares(after_p.d_powers@, after_p.ai@, n as nat)
    &&& after_v.hi@ == power_shares(after_v.d_powers@, after_v.bi@, n as nat)
    &&& forall|j: int|
        0 <= j < n ==> (#[trigger] after_p.hi@[j]).plus(after_v.hi@[j]) == power(h, (j + 1) as nat)
}

/// What a run returns: the sum of the two parties' shares of the hash of
/// `blocks`.
pub open spec fn run_result<T: Ring>(
    blocks: Seq<T>,
    after_p: Prover<T>,
    after_v: Verifier<T>,
) -> T {
    dot(blocks, after_p.hi@, blocks.len()).plus(dot(blocks, after_v.hi@, blocks.len()))
}

/// The two parties' shares of the `k`-th power of the key add up to it:
/// with `d + rho = h`, the powers of `d` in `dp` and shares `a`, `b` of
/// the powers of `rho`.
pub proof fn lemma_power_shares_add_up<T: Ring>(
    d: T,
    rho: T,
    dp: Seq<T>,
    a: Seq<T>,
    b: Seq<T>,
    k: nat,
)
    requires
        d.valid(),
        rho.valid(),
        dp.len() > k,
        forall|i: int| 0 <= i <= k ==> #[trigger] dp[i] == power(d, i as nat),
        forall|i: int| 0 <= i <= k ==> (#[trigger] a[i]).plus(b[i]) == power(rho, i as nat),
    ensures
        power_share(dp, a, k).plus(power_share(dp, b, k)) == power(d.plus(rho), k),
{
    let c = Seq::new(k + 1, |i: int| a[i].plus(b[i]));
    lemma_weighted_sum_adds(k, dp, a, b, c, k + 1);
    lemma_weighted_sum_of_powers(k, d, rho, dp, c, k + 1);
    lemma_binomial_theorem(k, d, rho);
}

/// The two parties' shares of the hash add up to the hash under the whole
/// key, whatever masks and shares of the masks' products they hold.
pub proof fn lemma_ghash_shares_add_up<T: Ring>(
    blocks: Seq<T>,
    h: T,
    hi1: Seq<T>,
    hi2: Seq<T>,
)
    requires
        blocks.len() <= hi1.len(),
        blocks.len() <= hi2.len(),
        forall|j: int|
            0 <= j < blocks.len() ==> (#[trigger] hi1[j]).plus(hi2[j]) == power(h, (j + 1) as nat),
    ensures
        dot(blocks, hi1, blocks.len()).plus(dot(blocks, hi2, blocks.len())) == ghash_value(
            blocks,
            h,
        ),
{
    let m = blocks.len();
    let key_powers = Seq::new(m, |i: int| power(h, (i + 1) as nat));
    lemma_dot_adds(blocks, hi1, hi2, key_powers, m);
}

/// Runs the protocol between a fresh prover and a fresh verifier and returns
/// the hash of `blocks` under the key that they share, put together from
/// their two shares of it.
pub fn ghash<T: Ring>(blocks: &[T], prover: &mut Prover<T>, verifier: &mut Verifier<T>) -> (res: T)
    requires
        old(prover).wf(),
        old(verifier).wf(),
        all_valid(blocks@),
        old(prover).block_num == old(verifier).block_num,
        1 <= old(prover).block_num < usize::MAX,
        blocks.len() <= old(prover).block_num,
        old(prover).is_fresh(old(prover).block_num, old(prover).h1),
        old(verifier).is_fresh(old(verifier).block_num, old(verifier).h2),
    ensures
        res == ghash_value(blocks@, old(prover).h1.plus(old(verifier).h2)),
        res == run_result(blocks@, *final(prover), *final(verifier)),
        run_completed(*old(prover), *old(verifier), *final(prover), *final(verifier)),
{
    let ghost n = prover.block_num;
    let ghost h1 = prover.h1;
    let ghost h2 = verifier.h2;
    let ghost r1 = prover.r1;
    let ghost r2 = verifier.r2;
    let ghost h = h1.plus(h2);
    let ghost rho = r1.times(r2);
    let mut ole: Ole<T> = Ole::default();

    prover.preprocess_ole_input(&mut ole);
    verifier.preprocess_ole_input(&mut ole);
    let ghost batch = ole;

    let taken = prover.preprocess_ole_output(&mut ole);
    let ghost after_first = ole;
    if taken.is_err() {
        assert(false);
        return unreached();
    }
    let taken = verifier.preprocess_ole_output(&mut ole);
    if taken.is_err() {
        assert(false);
        return unreached();
    }
    proof {
        let s = powers_of(r1, (n + 1) as nat);
        let r = powers_of(r2, (n + 1) as nat);
        lemma_outputs_share_products(
            batch,
            s,
            r,
            Role::Sender,
            after_first,
            prover.ai,
            Role::Receiver,
            ole,
            verifier.bi,
        );
        T::lemma_results_valid(r1, r2);
        T::lemma_results_valid(h1, h2);
        assert forall|i: int| 0 <= i <= n implies (#[trigger] prover.ai@[i]).plus(verifier.bi@[i])
            == power(rho, i as nat) by {
            assert(s[i] == power(r1, i as nat));
            assert(r[i] == power(r2, i as nat));
            lemma_power_of_product(r1, r2, i as nat);
        }
        assert(power(rho, 1) == rho.times(power(rho, 0)));
        T::lemma_times_one(rho);
    }

    let d1 = prover.handshake_a_open_d();
    let d2 = verifier.handshake_a_open_d();
    let d = d1.add(d2);
    proof {
        lemma_difference_of_sums(h1, h2, prover.ai@[1], verifier.bi@[1]);
        assert(d == opened_value(h1, h2, r1, r2));
        T::lemma_results_valid(h, rho.opposite());
        lemma_difference_restored(h, rho);
    }

    prover.handshake_a_set_di(d);
    verifier.handshake_a_set_di(d);

    prover.handshake_a_set_hi();
    verifier.handshake_a_set_hi();
    proof {
        assert forall|j: int| 0 <= j < n implies (#[trigger] prover.hi@[j]).plus(verifier.hi@[j])
            == power(h, (j + 1) as nat) by {
            lemma_power_shares_add_up(
                d,
                rho,
                prover.d_powers@,
                prover.ai@,
                verifier.bi@,
                (j + 1) as nat,
            );
        }
        lemma_ghash_shares_add_up(blocks@, h, prover.hi@, verifier.hi@);
    }

    let ghash1 = prover.handshake_output_ghash(blocks);
    let ghash2 = verifier.handshake_output_ghash(blocks);

    ghash1.add(ghash2)
}

/// The same run with a prover whose mask is zero. The opened value is then
/// the key itself, which the prover finds among the powers that it holds:
/// the protocol does not check what a party gives.
pub fn ghash_with_input_zero_from_prover<T: Ring>(
    blocks: &[T],
    prover: &mut MaliciousProver<T>,
    verifier: &mut Verifier<T>,
) -> (res: T)
    requires
        old(prover).inner.wf(),
        old(verifier).wf(),
        all_valid(blocks@),
        old(prover).inner.block_num == old(verifier).block_num,
        1 <= old(verifier).block_num < usize::MAX,
        blocks.len() <= old(verifier).block_num,
        old(prover).inner.is_fresh(old(prover).inner.block_num, old(prover).inner.h1),
        old(verifier).is_fresh(old(verifier).block_num, old(verifier).h2),
    ensures
        res == ghash_value(blocks@, old(prover).inner.h1.plus(old(verifier).h2)),
        res == run_result(blocks@, final(prover).inner, *final(verifier)),
        run_completed(old(prover).inner, *old(verifier), final(prover).inner, *final(verifier)),
        old(prover).inner.r1 == T::zero_elem() ==> final(prover).inner.d_powers@[1] == old(
            prover,
        ).inner.h1.plus(old(verifier).h2),
{
    let ghost h = prover.inner.h1.plus(verifier.h2);
    let ghost r2 = verifier.r2;
    let res = ghash(blocks, &mut prover.inner, verifier);
    proof {
        let zero = T::zero_elem();
        if old(prover).inner.r1 == zero {
            let d = opened_value(old(prover).inner.h1, old(verifier).h2, zero, r2);
            lemma_times_zero(r2);
            T::lemma_plus_opposite(zero);
            T::lemma_results_valid(zero, zero);
            lemma_zero_plus(zero.opposite());
            T::lemma_results_valid(old(prover).inner.h1, old(verifier).h2);
            T::lemma_plus_zero(h);
            assert(d == h);
            assert(power(d, 1) == d.times(power(d, 0)));
            T::lemma_times_one(d);
            assert(prover.inner.d_powers@[1] == power(d, 1));
        }
    }
    res
}

/// Two runs on the same blocks with the same key shares, each with its own
/// masks and its own shares of the masks' products, return the same value,
/// the hash under the whole key: the parties' shares differ between the
/// runs, their sums agree.
pub proof fn lemma_runs_agree<T: Ring>(
    blocks: Seq<T>,
    first_p: Prover<T>,
    first_v: Verifier<T>,
    first_p_after: Prover<T>,
    first_v_after: Verifier<T>,
    second_p: Prover<T>,
    second_v: Verifier<T>,
    second_p_after: Prover<T>,
    second_v_after: Verifier<T>,
)
    requires
        first_p.h1 == second_p.h1,
        first_v.h2 == second_v.h2,
        first_p.block_num == second_p.block_num,
        blocks.len() <= first_p.block_num,
        run_completed(first_p, first_v, first_p_after, first_v_after),
        run_completed(second_p, second_v, second_p_after, second_v_after),
    ensures
        run_result(blocks, first_p_after, first_v_after) == ghash_value(
            blocks,
            first_p.h1.plus(first_v.h2),
        ),
        run_result(blocks, first_p_after, first_v_after) == run_result(
            blocks,
            second_p_after,
            second_v_after,
        ),
{
    let h = first_p.h1.plus(first_v.h2);
    lemma_ghash_shares_add_up(blocks, h, first_p_after.hi@, first_v_after.hi@);
    lemma_ghash_shares_add_up(blocks, h, second_p_after.hi@, second_v_after.hi@);
}

} // verus!
