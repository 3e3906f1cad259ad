//! The party that plays the receiver of the oblivious linear evaluation.

use super::shares::{dot, lemma_dot_valid, lemma_weighted_sum_valid, power_shares, weighted_sum};
use super::triangle::{lemma_entry_valid, pascal_tri};
use crate::field::{
    all_valid, compute_product_repeated, difference, lemma_products_are_powers, powers_of, Ring,
};
use crate::func::ole::{Ole, OleError};
use crate::func::Role;
use vstd::prelude::*;

verus! {

/// The verifier's state: its key share `h2`, its mask `r2`, and what the
/// phases have filled in so far.
#[derive(Debug)]
pub struct Verifier<T: Ring> {
    pub block_num: usize,
    pub h2: T,
    pub r2: T,
    /// Shares of the products of the two masks' powers.
    pub bi: Vec<T>,
    /// Powers of the opened value.
    pub d_powers: Vec<T>,
    /// Shares of the powers of the key, from the first power on.
    pub hi: Vec<T>,
}

impl<T: Ring> Verifier<T> {
    /// Every element that the state holds is valid.
    pub open spec fn wf(&self) -> bool {
        &&& self.h2.valid()
        &&& self.r2.valid()
        &&& all_valid(self.bi@)
        &&& all_valid(self.d_powers@)
        &&& all_valid(self.hi@)
    }

    /// The state before any phase has run. No phase writes what another has
    /// written.
    pub open spec fn is_fresh(&self, block_num: usize, h2: T) -> bool {
        &&& self.block_num == block_num
        &&& self.h2 == h2
        &&& self.bi@.len() == 0
        &&& self.d_powers@.len() == 0
        &&& self.hi@.len() == 0
    }

    /// A verifier for `block_num` blocks with the key share `h2` and a fresh
    /// random mask.
    pub fn new(block_num: usize, h2: T) -> (r: Self)
        requires
            h2.valid(),
        ensures
            r.is_fresh(block_num, h2),
            r.wf(),
    {
        let r2 = T::rand();
        Self { block_num, h2, r2, bi: Vec::new(), d_powers: Vec::new(), hi: Vec::new() }
    }

    /// Gives the powers `0` to `block_num` of the mask to the batch.
    pub fn preprocess_ole_input(&self, ole: &mut Ole<T>)
        requires
            self.wf(),
            self.block_num < usize::MAX,
        ensures
            final(ole).receiver_input() == Some(powers_of(self.r2, (self.block_num + 1) as nat)),
            final(ole).sender_input() == old(ole).sender_input(),
            final(ole).kept() == old(ole).kept(),
    {
        let mut r2_powers: Vec<T> = Vec::new();
        r2_powers.push(T::one());
        proof {
            T::lemma_results_valid(self.r2, self.r2);
            assert(r2_powers@ =~= powers_of(self.r2, 1));
            lemma_products_are_powers(r2_powers@, self.r2, self.block_num as nat);
        }
        compute_product_repeated(&mut r2_powers, self.r2, self.block_num);
        ole.input(Role::Receiver, r2_powers)
    }

    /// Takes the verifier's shares out of the batch.
    pub fn preprocess_ole_output(&mut self, ole: &mut Ole<T>) -> (res: Result<(), OleError>)
        requires
            old(self).wf(),
            old(self).bi.len() == 0,
        ensures
            old(ole).output_step(
                Role::Receiver,
                final(ole),
                match res {
                    Ok(_) => Ok(final(self).bi),
                    Err(e) => Err(e),
                },
            ),
            final(self).wf(),
            final(self).block_num == old(self).block_num,
            final(self).h2 == old(self).h2,
            final(self).r2 == old(self).r2,
            final(self).d_powers == old(self).d_powers,
            final(self).hi == old(self).hi,
            res is Err ==> final(self).bi == old(self).bi,
    {
        match ole.output(Role::Receiver) {
            Ok(shares) => {
                self.bi = shares;
                Ok(())
            },
            Err(e) => Err(e),
        }
    }

    /// The verifier's share of the opened value: its key share less its share
    /// of the product of the two masks.
    pub fn handshake_a_open_d(&self) -> (d: T)
        requires
            self.wf(),
            self.bi.len() > 1,
        ensures
            d == difference(self.h2, self.bi[1]),
            d.valid(),
    {
        proof {
            T::lemma_results_valid(self.bi[1], self.bi[1]);
            T::lemma_results_valid(self.h2, self.bi[1].opposite());
        }
        self.h2.add(self.bi[1].neg())
    }

    /// Records the powers `0` to `block_num` of the opened value.
    pub fn handshake_a_set_di(&mut self, d: T)
        requires
            old(self).wf(),
            old(self).d_powers.len() == 0,
            d.valid(),
            old(self).block_num < usize::MAX,
        ensures
            final(self).d_powers@ == powers_of(d, (old(self).block_num + 1) as nat),
            final(self).wf(),
            final(self).block_num == old(self).block_num,
            final(self).h2 == old(self).h2,
            final(self).r2 == old(self).r2,
            final(self).bi == old(self).bi,
            final(self).hi == old(self).hi,
    {
        let mut d_powers: Vec<T> = Vec::new();
        d_powers.push(T::one());
        proof {
            T::lemma_results_valid(d, d);
            assert(d_powers@ =~= powers_of(d, 1));
            lemma_products_are_powers(d_powers@, d, self.block_num as nat);
        }
        compute_product_repeated(&mut d_powers, d, self.block_num);
        self.d_powers = d_powers;
    }

    /// Records the verifier's shares of the powers `1` to `block_num` of the
    /// key.
    pub fn handshake_a_set_hi(&mut self)
        requires
            old(self).wf(),
            old(self).block_num < usize::MAX,
            old(self).bi.len() > old(self).block_num,
            old(self).d_powers.len() > old(self).block_num,
            old(self).hi.len() == 0,
        ensures
            final(self).hi@ == power_shares(
                old(self).d_powers@,
                old(self).bi@,
                old(self).block_num as nat,
            ),
            final(self).wf(),
            final(self).block_num == old(self).block_num,
            final(self).h2 == old(self).h2,
            final(self).r2 == old(self).r2,
            final(self).bi == old(self).bi,
            final(self).d_powers == old(self).d_powers,
    {
        let n = self.block_num;
        let pascal_tri = pascal_tri::<T>(n);
        let mut k: usize = 1;
        while k <= n
            invariant
                1 <= k <= n + 1,
                n < usize::MAX,
                n == self.block_num,
                pascal_tri.len() == n + 1,
                super::triangle::is_triangle(pascal_tri@),
                self.wf(),
                self.bi.len() > n,
                self.d_powers.len() > n,
                old(self).hi.len() == 0,
                self.block_num == old(self).block_num,
                self.h2 == old(self).h2,
                self.r2 == old(self).r2,
                self.bi == old(self).bi,
                self.d_powers == old(self).d_powers,
                self.hi@ == power_shares(self.d_powers@, self.bi@, (k - 1) as nat),
            decreases n + 1 - k,
        {
            let pascal_row = &pascal_tri[k];
            let mut acc = T::zero();
            let mut i: usize = 0;
            proof {
                T::lemma_results_valid(acc, acc);
            }
            while i <= k
                invariant
                    i <= k + 1,
                    k <= n,
                    n < usize::MAX,
                    pascal_row.len() == k + 1,
                    forall|j: int|
                        0 <= j <= k ==> #[trigger] pascal_row[j] == super::triangle::pascal_entry::<T>(
                            k as nat,
                            j as nat,
                        ),
                    self.wf(),
                    self.bi.len() > n,
                    self.d_powers.len() > n,
                    acc.valid(),
                    acc == weighted_sum(k as nat, self.d_powers@, self.bi@, i as nat),
                decreases k + 1 - i,
            {
                proof {
                    lemma_entry_valid::<T>(k as nat, i as nat);
                    T::lemma_results_valid(pascal_row[i as int], self.d_powers[k - i]);
                    T::lemma_results_valid(
                        pascal_row[i as int].times(self.d_powers[k - i]),
                        self.bi[i as int],
                    );
                    lemma_weighted_sum_valid(k as nat, self.d_powers@, self.bi@, (i + 1) as nat);
                }
                let term = pascal_row[i].mul(self.d_powers[pascal_row.len() - 1 - i]).mul(
                    self.bi[i],
                );
                acc = acc.add(term);
                i = i + 1;
            }
            self.hi.push(acc);
            proof {
                assert(self.hi@ =~= power_shares(self.d_powers@, self.bi@, k as nat));
            }
            k = k + 1;
        }
    }

    /// The verifier's share of the hash: the sum of each block times the share
    /// of the power of the key at the block's place.
    pub fn handshake_output_ghash(&self, blocks: &[T]) -> (res: T)
        requires
            self.wf(),
            all_valid(blocks@),
            blocks.len() <= self.hi.len(),
        ensures
            res == dot(blocks@, self.hi@, blocks.len() as nat),
            res.valid(),
    {
        let mut res = T::zero();
        let mut i: usize = 0;
        proof {
            T::lemma_results_valid(res, res);
        }
        while i < blocks.len()
            invariant
                i <= blocks.len(),
                blocks.len() <= self.hi.len(),
                self.wf(),
                all_valid(blocks@),
                res.valid(),
                res == dot(blocks@, self.hi@, i as nat),
            decreases blocks.len() - i,
        {
            proof {
                T::lemma_results_valid(blocks[i as int], self.hi[i as int]);
                lemma_dot_valid(blocks@, self.hi@, (i + 1) as nat);
            }
            res = res.add(blocks[i].mul(self.hi[i]));
            i = i + 1;
        }
        res
    }
}

} // verus!
