//! The arithmetic that the protocols compute in: a commutative ring with a
//! unit, and on top of it a field, whose nonzero elements can be inverted.
//!
//! An implementation gives the operations twice, as specification functions
//! and as executable methods, and proves the ring laws of the former. The
//! protocols and their proofs are written once, against these traits.

use vstd::prelude::*;

verus! {

/// A commutative ring with a unit, with elements that can be drawn at random.
pub trait Ring: Sized + Copy {
    /// The value is a canonical representation of an element. Every result of
    /// an operation is valid, whatever its operands are.
    spec fn valid(self) -> bool;

    spec fn zero_elem() -> Self;

    spec fn one_elem() -> Self;

    spec fn plus(self, rhs: Self) -> Self;

    spec fn opposite(self) -> Self;

    spec fn times(self, rhs: Self) -> Self;

    proof fn lemma_results_valid(a: Self, b: Self)
        ensures
            Self::zero_elem().valid(),
            Self::one_elem().valid(),
            a.plus(b).valid(),
            a.opposite().valid(),
            a.times(b).valid(),
    ;

    proof fn lemma_plus_commutes(a: Self, b: Self)
        ensures
            a.plus(b) == b.plus(a),
    ;

    proof fn lemma_plus_associates(a: Self, b: Self, c: Self)
        ensures
            a.plus(b).plus(c) == a.plus(b.plus(c)),
    ;

    proof fn lemma_plus_zero(a: Self)
        requires
            a.valid(),
        ensures
            a.plus(Self::zero_elem()) == a,
    ;

    proof fn lemma_plus_opposite(a: Self)
        ensures
            a.plus(a.opposite()) == Self::zero_elem(),
    ;

    proof fn lemma_times_commutes(a: Self, b: Self)
        ensures
            a.times(b) == b.times(a),
    ;

    proof fn lemma_times_associates(a: Self, b: Self, c: Self)
        ensures
            a.times(b).times(c) == a.times(b.times(c)),
    ;

    proof fn lemma_times_one(a: Self)
        requires
            a.valid(),
        ensures
            a.times(Self::one_elem()) == a,
    ;

    proof fn lemma_times_distributes(a: Self, b: Self, c: Self)
        ensures
            a.times(b.plus(c)) == a.times(b).plus(a.times(c)),
    ;

    fn zero() -> (r: Self)
        ensures
            r == Self::zero_elem(),
    ;

    fn one() -> (r: Self)
        ensures
            r == Self::one_elem(),
    ;

    fn add(self, rhs: Self) -> (r: Self)
        requires
            self.valid(),
            rhs.valid(),
        ensures
            r == self.plus(rhs),
    ;

    fn neg(self) -> (r: Self)
        requires
            self.valid(),
        ensures
            r == self.opposite(),
    ;

    fn mul(self, rhs: Self) -> (r: Self)
        requires
            self.valid(),
            rhs.valid(),
        ensures
            r == self.times(rhs),
    ;

    fn is_zero(self) -> (b: bool)
        requires
            self.valid(),
        ensures
            b == (self == Self::zero_elem()),
    ;

    /// A fresh element, drawn uniformly.
    fn rand() -> (r: Self)
        ensures
            r.valid(),
    ;
}

/// A ring in which every element but zero has a multiplicative inverse.
pub trait Field: Ring {
    /// The multiplicative inverse. Zero has none.
    fn inverse(self) -> (r: Self)
        requires
            self.valid(),
            self != Self::zero_elem(),
        ensures
            is_inverse_of(r, self),
    ;
}

/// `a - b`.
pub open spec fn difference<T: Ring>(a: T, b: T) -> T {
    a.plus(b.opposite())
}

/// `1 + 1`.
pub open spec fn two_elem<T: Ring>() -> T {
    T::one_elem().plus(T::one_elem())
}

/// `a * a`.
pub open spec fn square<T: Ring>(a: T) -> T {
    a.times(a)
}

/// `base` raised to `n`.
pub open spec fn power<T: Ring>(base: T, n: nat) -> T
    decreases n,
{
    if n == 0 {
        T::one_elem()
    } else {
        base.times(power(base, (n - 1) as nat))
    }
}

/// `r` is a multiplicative inverse of `a`.
pub open spec fn is_inverse_of<T: Ring>(r: T, a: T) -> bool {
    r.valid() && a.times(r) == T::one_elem()
}

pub open spec fn invertible<T: Ring>(a: T) -> bool {
    exists|r: T| is_inverse_of(r, a)
}

/// The multiplicative inverse of an invertible element, which is unique.
pub open spec fn inverse_of<T: Ring>(a: T) -> T {
    choose|r: T| is_inverse_of(r, a)
}

/// Every element of the sequence is valid.
pub open spec fn all_valid<T: Ring>(s: Seq<T>) -> bool {
    forall|i: int| 0 <= i < s.len() ==> (#[trigger] s[i]).valid()
}

/// The first `count` powers of `base`, from `base^0` on.
pub open spec fn powers_of<T: Ring>(base: T, count: nat) -> Seq<T> {
    Seq::new(count, |i: int| power(base, i as nat))
}

/// `s` with `count` more elements, each the product of `factor` and the
/// element before it.
pub open spec fn extended_by_products<T: Ring>(s: Seq<T>, factor: T, count: nat) -> Seq<T>
    decreases count,
{
    if count == 0 {
        s
    } else {
        let shorter = extended_by_products(s, factor, (count - 1) as nat);
        shorter.push(factor.times(shorter.last()))
    }
}

/// Appends `count` elements to `powers`: each is the product of `factor` and
/// the element that was last before it.
pub fn compute_product_repeated<T: Ring>(powers: &mut Vec<T>, factor: T, count: usize)
    requires
        old(powers).len() > 0,
        old(powers).len() + count <= usize::MAX,
        all_valid(old(powers)@),
        factor.valid(),
    ensures
        final(powers)@ == extended_by_products(old(powers)@, factor, count as nat),
        all_valid(final(powers)@),
{
    let mut done: usize = 0;
    while done < count
        invariant
            done <= count,
            powers.len() == old(powers).len() + done,
            old(powers).len() > 0,
            old(powers).len() + count <= usize::MAX,
            factor.valid(),
            all_valid(powers@),
            powers@ == extended_by_products(old(powers)@, factor, done as nat),
        decreases count - done,
    {
        let last_power = powers[powers.len() - 1];
        let next = factor.mul(last_power);
        proof {
            T::lemma_results_valid(factor, last_power);
        }
        powers.push(next);
        done = done + 1;
    }
}

/// Started from `base^0`, or from `base^0` and `base^1`, repeated products
/// with `base` are its powers.
pub proof fn lemma_products_are_powers<T: Ring>(s: Seq<T>, base: T, count: nat)
    requires
        base.valid(),
        s.len() > 0,
        s == powers_of(base, s.len()),
    ensures
        extended_by_products(s, base, count) == powers_of(base, s.len() + count),
    decreases count,
{
    if count == 0 {
        assert(extended_by_products(s, base, count) =~= powers_of(base, s.len() + count));
    } else {
        lemma_products_are_powers(s, base, (count - 1) as nat);
        let shorter = extended_by_products(s, base, (count - 1) as nat);
        assert(shorter.last() == power(base, (s.len() + count - 2) as nat));
        assert(shorter.push(base.times(shorter.last())) =~= powers_of(base, s.len() + count));
    }
}

/// Every power is a valid element.
pub proof fn lemma_power_valid<T: Ring>(base: T, n: nat)
    ensures
        power(base, n).valid(),
    decreases n,
{
    T::lemma_results_valid(base, base);
    if n > 0 {
        T::lemma_results_valid(base, power(base, (n - 1) as nat));
    }
}

} // verus!
