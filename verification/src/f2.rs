//! The field with two elements.

use crate::field::{Field, Ring};
use vstd::prelude::*;

verus! {

/// An element of the field with two elements.
#[derive(Debug, Copy, Clone, PartialEq, Eq, Hash, PartialOrd, Ord)]
pub struct F2 {
    inner: bool,
}

/// The `rand` crate's thread-local generator, asked for one `bool`. Nothing
/// is claimed of the bit that comes back.
#[verifier::external_body]
fn random_bit() -> bool {
    rand::Rng::gen::<bool>(&mut rand::thread_rng())
}

impl F2 {
    /// The element as a truth value: `true` for one, `false` for zero.
    pub closed spec fn bit(self) -> bool {
        self.inner
    }

    /// The element that `value` encodes: `false` is zero and `true` is one.
    pub fn new(value: bool) -> (r: Self)
        ensures
            r.bit() == value,
    {
        Self { inner: value }
    }

    /// The truth value that encodes this element.
    pub fn to_bool(self) -> (b: bool)
        ensures
            b == self.bit(),
    {
        self.inner
    }

    /// Two elements with the same truth value are the same element.
    pub proof fn lemma_bit_determines(a: Self, b: Self)
        requires
            a.bit() == b.bit(),
        ensures
            a == b,
    {
    }
}

impl Ring for F2 {
    open spec fn valid(self) -> bool {
        true
    }

    closed spec fn zero_elem() -> Self {
        F2 { inner: false }
    }

    closed spec fn one_elem() -> Self {
        F2 { inner: true }
    }

    closed spec fn plus(self, rhs: Self) -> Self {
        F2 { inner: self.inner != rhs.inner }
    }

    closed spec fn opposite(self) -> Self {
        self
    }

    closed spec fn times(self, rhs: Self) -> Self {
        F2 { inner: self.inner && rhs.inner }
    }

    proof fn lemma_results_valid(a: Self, b: Self) {
    }

    proof fn lemma_plus_commutes(a: Self, b: Self) {
    }

    proof fn lemma_plus_associates(a: Self, b: Self, c: Self) {
    }

    proof fn lemma_plus_zero(a: Self) {
    }

    proof fn lemma_plus_opposite(a: Self) {
    }

    proof fn lemma_times_commutes(a: Self, b: Self) {
    }

    proof fn lemma_times_associates(a: Self, b: Self, c: Self) {
    }

    proof fn lemma_times_one(a: Self) {
    }

    proof fn lemma_times_distributes(a: Self, b: Self, c: Self) {
    }

    fn zero() -> (r: Self) {
        F2::new(false)
    }

    fn one() -> (r: Self) {
        F2::new(true)
    }

    fn add(self, rhs: Self) -> (r: Self) {
        F2::new(self.inner != rhs.inner)
    }

    fn neg(self) -> (r: Self) {
        self
    }

    fn mul(self, rhs: Self) -> (r: Self) {
        F2::new(self.inner && rhs.inner)
    }

    fn is_zero(self) -> (b: bool) {
        !self.inner
    }

    fn rand() -> (r: Self) {
        F2::new(random_bit())
    }
}

impl Field for F2 {
    fn inverse(self) -> (r: Self) {
        F2::one()
    }
}

/// What the operations of the two-element field are on truth values.
pub proof fn lemma_f2_operations(a: F2, b: F2)
    ensures
        !F2::zero_elem().bit(),
        F2::one_elem().bit(),
        a.plus(b).bit() == (a.bit() != b.bit()),
        a.times(b).bit() == (a.bit() && b.bit()),
        a.opposite() == a,
{
}

} // verus!
