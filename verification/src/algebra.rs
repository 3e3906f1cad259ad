//! Consequences of the ring laws that the protocols' proofs share.

use crate::field::{difference, inverse_of, is_inverse_of, power, Ring};
use vstd::prelude::*;

verus! {

/// Zero times anything is zero.
pub proof fn lemma_times_zero<T: Ring>(a: T)
    ensures
        a.times(T::zero_elem()) == T::zero_elem(),
        T::zero_elem().times(a) == T::zero_elem(),
{
    let z = T::zero_elem();
    let az = a.times(z);
    T::lemma_results_valid(a, z);
    T::lemma_plus_zero(z);
    T::lemma_times_distributes(a, z, z);
    assert(az == az.plus(az));
    T::lemma_plus_associates(az, az, az.opposite());
    T::lemma_plus_opposite(az);
    T::lemma_plus_zero(az);
    T::lemma_times_commutes(a, z);
}

/// Zero is neutral on the left too.
pub proof fn lemma_zero_plus<T: Ring>(a: T)
    requires
        a.valid(),
    ensures
        T::zero_elem().plus(a) == a,
{
    T::lemma_plus_zero(a);
    T::lemma_plus_commutes(a, T::zero_elem());
}

/// One is neutral on the left too.
pub proof fn lemma_one_times<T: Ring>(a: T)
    requires
        a.valid(),
    ensures
        T::one_elem().times(a) == a,
{
    T::lemma_times_one(a);
    T::lemma_times_commutes(a, T::one_elem());
}

/// `(p + q) + (x + y) = (p + x) + (q + y)`.
pub proof fn lemma_regroup<T: Ring>(p: T, q: T, x: T, y: T)
    ensures
        p.plus(q).plus(x.plus(y)) == p.plus(x).plus(q.plus(y)),
{
    T::lemma_plus_associates(p, q, x.plus(y));
    T::lemma_plus_associates(q, x, y);
    T::lemma_plus_commutes(q, x);
    T::lemma_plus_associates(x, q, y);
    T::lemma_plus_associates(p, x, q.plus(y));
}

/// `(x + u * a) + (y + u * b) = (x + y) + u * (a + b)`.
pub proof fn lemma_scaled_terms_add<T: Ring>(x: T, y: T, u: T, a: T, b: T)
    ensures
        x.plus(u.times(a)).plus(y.plus(u.times(b))) == x.plus(y).plus(u.times(a.plus(b))),
{
    lemma_regroup(x, u.times(a), y, u.times(b));
    T::lemma_times_distributes(u, a, b);
}

/// `a^n * b^n = (a * b)^n`.
pub proof fn lemma_power_of_product<T: Ring>(a: T, b: T, n: nat)
    ensures
        power(a, n).times(power(b, n)) == power(a.times(b), n),
    decreases n,
{
    let one = T::one_elem();
    if n == 0 {
        T::lemma_results_valid(one, one);
        T::lemma_times_one(one);
    } else {
        let j = (n - 1) as nat;
        lemma_power_of_product(a, b, j);
        let pa = power(a, j);
        let pb = power(b, j);
        // (a pa)(b pb) = (a b)(pa pb)
        T::lemma_times_associates(a, pa, b.times(pb));
        T::lemma_times_associates(pa, b, pb);
        T::lemma_times_commutes(pa, b);
        T::lemma_times_associates(b, pa, pb);
        T::lemma_times_associates(a, b, pa.times(pb));
    }
}

/// `(h1 - a) + (h2 - b) = (h1 + h2) - (a + b)`.
pub proof fn lemma_difference_of_sums<T: Ring>(h1: T, h2: T, a: T, b: T)
    ensures
        difference(h1, a).plus(difference(h2, b)) == difference(h1.plus(h2), a.plus(b)),
{
    let s = a.plus(b);
    let n = a.opposite().plus(b.opposite());
    T::lemma_results_valid(a, b);
    T::lemma_results_valid(b, a);
    T::lemma_results_valid(a.opposite(), b.opposite());
    T::lemma_results_valid(s, n);
    // n is the opposite of s: s + n = 0, hence n = -s
    lemma_regroup(a, b, a.opposite(), b.opposite());
    T::lemma_plus_opposite(a);
    T::lemma_plus_opposite(b);
    T::lemma_plus_zero(T::zero_elem());
    assert(s.plus(n) == T::zero_elem());
    T::lemma_plus_opposite(s);
    T::lemma_plus_associates(s.opposite(), s, n);
    T::lemma_plus_commutes(s.opposite(), s);
    lemma_zero_plus(n);
    T::lemma_plus_zero(s.opposite());
    assert(n == s.opposite());
    lemma_regroup(h1, a.opposite(), h2, b.opposite());
}

/// `(h - rho) + rho = h`.
pub proof fn lemma_difference_restored<T: Ring>(h: T, rho: T)
    requires
        h.valid(),
    ensures
        difference(h, rho).plus(rho) == h,
{
    T::lemma_plus_associates(h, rho.opposite(), rho);
    T::lemma_plus_commutes(rho.opposite(), rho);
    T::lemma_plus_opposite(rho);
    T::lemma_plus_zero(h);
}

/// An element has at most one inverse.
pub proof fn lemma_inverse_is_unique<T: Ring>(a: T, r: T, other: T)
    requires
        is_inverse_of(r, a),
    ensures
        is_inverse_of(other, a) ==> other == r,
        inverse_of(a) == r,
        is_inverse_of(inverse_of(a), a),
{
    if is_inverse_of(other, a) {
        // r = r (a other) = (a r) other = other
        T::lemma_times_one(r);
        T::lemma_times_associates(r, a, other);
        T::lemma_times_commutes(r, a);
        T::lemma_times_one(other);
        T::lemma_times_commutes(T::one_elem(), other);
    }
    let chosen = inverse_of(a);
    assert(is_inverse_of(chosen, a));
    T::lemma_times_one(r);
    T::lemma_times_associates(r, a, chosen);
    T::lemma_times_commutes(r, a);
    T::lemma_times_one(chosen);
    T::lemma_times_commutes(T::one_elem(), chosen);
}

} // verus!
