//! Additive share conversion between two parties.
//!
//! Two protocols turn what the parties hold into additive shares over a
//! field without either party learning the other's input: [`e2f`] gives
//! shares of the x-coordinate of the sum of two points of an elliptic curve,
//! and [`ghash`] gives shares of a polynomial hash under a shared key. Both
//! draw their correlated randomness from the ideal functionality in
//! [`func::ole`].

use field::Ring;
use gf2_128::Gf2_128;
use vstd::prelude::*;

pub mod algebra;
pub mod e2f;
pub mod f2;
pub mod field;
pub mod func;
pub mod gf2_128;
pub mod ghash;
pub mod ole;
pub mod p256;
pub mod prover;

verus! {

/// The bit of `a` at position `idx`, counted from the least significant one.
pub open spec fn bit_at(a: u64, idx: nat) -> bool {
    (a as nat / vstd::arithmetic::power2::pow2(idx)) % 2 == 1
}

/// Whether the bit of `a` at position `idx` is set.
pub fn get_bit(a: u64, idx: usize) -> (b: bool)
    requires
        idx < 64,
    ensures
        b == bit_at(a, idx as nat),
{
    let shifted = a >> idx;
    proof {
        vstd::bits::lemma_u64_shr_is_div(a, idx as u64);
        assert(a >> idx == a >> (idx as u64)) by (bit_vector);
        assert(shifted & 1 == shifted % 2) by (bit_vector);
    }
    shifted & 1 == 1
}

/// A random oblivious transfer as an ideal functionality: two fresh random
/// messages for the sender, and for the receiver the one that the choice bit
/// `x` selects.
pub fn rot(x: bool) -> (r: ((Gf2_128, Gf2_128), Gf2_128))
    ensures
        r.1 == if x {
            r.0.1
        } else {
            r.0.0
        },
{
    let t_0 = Gf2_128::rand();
    let t_1 = Gf2_128::rand();
    let t_x = if x {
        t_1
    } else {
        t_0
    };

    ((t_0, t_1), t_x)
}

} // verus!
