//! The chord formula and the identities that carry it through the masked
//! openings.

use crate::algebra::{
    lemma_difference_of_sums, lemma_difference_restored, lemma_inverse_is_unique, lemma_regroup,
    lemma_times_zero,
};
use crate::field::{difference, inverse_of, is_inverse_of, square, two_elem, Ring};
use vstd::prelude::*;

verus! {

/// The slope of the chord through two points: `(y2 - y1) / (x2 - x1)`.
pub open spec fn chord_slope<T: Ring>(point_a: (T, T), point_b: (T, T)) -> T {
    difference(point_b.1, point_a.1).times(inverse_of(difference(point_b.0, point_a.0)))
}

/// The x-coordinate of the sum of two points with different x-coordinates:
/// `slope^2 - x1 - x2`.
pub open spec fn chord_sum_x<T: Ring>(point_a: (T, T), point_b: (T, T)) -> T {
    square(chord_slope(point_a, point_b)).plus(point_a.0.opposite()).plus(point_b.0.opposite())
}

/// The two parties' shares of a triple's product add up to the product of
/// the sums: `(a1 b1 + s0 + s1) + (a2 b2 + t0 + t1) = (a1 + a2)(b1 + b2)`
/// where `s0 + t0 = a1 b2` and `s1 + t1 = b1 a2`.
pub proof fn lemma_triple_shares<T: Ring>(a1: T, b1: T, a2: T, b2: T, s0: T, s1: T, t0: T, t1: T)
    requires
        s0.plus(t0) == a1.times(b2),
        s1.plus(t1) == b1.times(a2),
    ensures
        a1.times(b1).plus(s0).plus(s1).plus(a2.times(b2).plus(t0).plus(t1)) == a1.plus(a2).times(
            b1.plus(b2),
        ),
{
    let p = a1.times(b1);
    let q = a2.times(b2);
    // left = (p + q) + ((s0 + t0) + (s1 + t1))
    lemma_regroup(p.plus(s0), s1, q.plus(t0), t1);
    lemma_regroup(p, s0, q, t0);
    T::lemma_plus_associates(p.plus(q), s0.plus(t0), s1.plus(t1));
    // right = (a1 b1 + a1 b2) + (a2 b1 + a2 b2)
    T::lemma_times_commutes(a1.plus(a2), b1.plus(b2));
    T::lemma_times_distributes(b1.plus(b2), a1, a2);
    T::lemma_times_commutes(b1.plus(b2), a1);
    T::lemma_times_commutes(b1.plus(b2), a2);
    T::lemma_times_distributes(a1, b1, b2);
    T::lemma_times_distributes(a2, b1, b2);
    T::lemma_times_commutes(b1, a2);
    // (p + a1b2) + (a2b1 + q) = (p + q) + (a1b2 + a2b1)
    T::lemma_plus_commutes(a2.times(b1), q);
    lemma_regroup(p, a1.times(b2), q, a2.times(b1));
}

/// `2 x = x + x`.
pub proof fn lemma_twice<T: Ring>(x: T)
    requires
        x.valid(),
    ensures
        two_elem::<T>().times(x) == x.plus(x),
{
    let one = T::one_elem();
    T::lemma_times_commutes(one.plus(one), x);
    T::lemma_times_distributes(x, one, one);
    T::lemma_times_one(x);
}

/// `(e + r)^2 = (e^2 + (2 e) r) + r^2`.
pub proof fn lemma_square_of_sum<T: Ring>(e: T, r: T)
    requires
        e.valid(),
        r.valid(),
    ensures
        square(e.plus(r)) == square(e).plus(two_elem::<T>().times(e).times(r)).plus(square(r)),
{
    let er = e.times(r);
    T::lemma_results_valid(e, r);
    // (e + r)(e + r) = (e e + e r) + (r e + r r)
    T::lemma_times_distributes(e.plus(r), e, r);
    T::lemma_times_commutes(e.plus(r), e);
    T::lemma_times_commutes(e.plus(r), r);
    T::lemma_times_distributes(e, e, r);
    T::lemma_times_distributes(r, e, r);
    T::lemma_times_commutes(r, e);
    // (2 e) r = 2 (e r) = e r + e r
    T::lemma_times_associates(two_elem::<T>(), e, r);
    lemma_twice(er);
    // (ee + er) + (er + rr) = (ee + (er + er)) + rr
    T::lemma_plus_associates(e.times(e).plus(er), er, r.times(r));
    T::lemma_plus_associates(e.times(e), er, er);
}

/// The two parties' shares of the square of the slope's mask add up to it:
/// `(r1^2 + 2 s) + (r2^2 + 2 t) = (r1 + r2)^2` where `s + t = r1 r2`.
pub proof fn lemma_square_shares<T: Ring>(r1: T, r2: T, s: T, t: T)
    requires
        r1.valid(),
        r2.valid(),
        s.valid(),
        t.valid(),
        s.plus(t) == r1.times(r2),
    ensures
        square(r1).plus(two_elem::<T>().times(s)).plus(square(r2).plus(two_elem::<T>().times(t)))
            == square(r1.plus(r2)),
{
    let two = two_elem::<T>();
    lemma_square_of_sum(r1, r2);
    T::lemma_times_associates(two, r1, r2);
    T::lemma_times_distributes(two, s, t);
    // (r1^2 + 2s) + (r2^2 + 2t) = (r1^2 + r2^2) + (2s + 2t)
    lemma_regroup(square(r1), two.times(s), square(r2), two.times(t));
    // (r1^2 + 2 r1 r2) + r2^2 = (r1^2 + r2^2) + 2 r1 r2
    let m = two.times(r1.times(r2));
    T::lemma_plus_associates(square(r1), m, square(r2));
    T::lemma_plus_commutes(m, square(r2));
    T::lemma_plus_associates(square(r1), square(r2), m);
}

/// What the first two openings give: with `e = (-u1 - b1) + (u2 - b2)` and
/// shares `c1 + c2 = (a1 + a2)(b1 + b2)`, the masked shares add up to
/// `(a1 + a2)(u2 - u1)`.
pub proof fn lemma_masked_difference<T: Ring>(
    u1: T,
    u2: T,
    a1: T,
    a2: T,
    b1: T,
    b2: T,
    c1: T,
    c2: T,
)
    requires
        u2.valid(),
        c1.plus(c2) == a1.plus(a2).times(b1.plus(b2)),
    ensures
        ({
            let e = u1.opposite().plus(b1.opposite()).plus(difference(u2, b2));
            e.times(a1).plus(c1).plus(e.times(a2).plus(c2)) == a1.plus(a2).times(
                difference(u2, u1),
            )
        }),
{
    let e = u1.opposite().plus(b1.opposite()).plus(difference(u2, b2));
    let a = a1.plus(a2);
    let b = b1.plus(b2);
    // (e a1 + c1) + (e a2 + c2) = e a + a b = a (e + b)
    lemma_regroup(e.times(a1), c1, e.times(a2), c2);
    T::lemma_times_distributes(e, a1, a2);
    T::lemma_times_commutes(e, a);
    T::lemma_times_distributes(a, e, b);
    // e + b = u2 - u1
    let nb = b1.opposite().plus(b2.opposite());
    lemma_regroup(u1.opposite(), b1.opposite(), u2, b2.opposite());
    assert(e == u1.opposite().plus(u2).plus(nb));
    T::lemma_plus_associates(u1.opposite().plus(u2), nb, b);
    lemma_regroup(b1.opposite(), b2.opposite(), b1, b2);
    T::lemma_plus_commutes(b1.opposite(), b1);
    T::lemma_plus_commutes(b2.opposite(), b2);
    T::lemma_plus_opposite(b1);
    T::lemma_plus_opposite(b2);
    let zero = T::zero_elem();
    T::lemma_results_valid(zero, zero);
    T::lemma_plus_zero(zero);
    assert(nb.plus(b) == zero);
    T::lemma_results_valid(u1, u2);
    T::lemma_results_valid(u1.opposite(), u2);
    T::lemma_plus_zero(u1.opposite().plus(u2));
    T::lemma_plus_commutes(u1.opposite(), u2);
}

/// What the third opening gives: the parties' last shares add up to the
/// square of the slope less the two x-coordinates.
pub proof fn lemma_final_shares<T: Ring>(
    eta1: T,
    eta2: T,
    r1: T,
    r2: T,
    rs1: T,
    rs2: T,
    x1: T,
    x2: T,
)
    requires
        eta1.valid(),
        eta2.valid(),
        r1.valid(),
        r2.valid(),
        rs1.plus(rs2) == square(r1.plus(r2)),
    ensures
        ({
            let e3 = difference(eta1, r1).plus(difference(eta2, r2));
            let two = two_elem::<T>();
            let z1 = square(e3).plus(two.times(e3).times(r1)).plus(rs1).plus(x1.opposite());
            let z2 = two.times(e3).times(r2).plus(rs2).plus(x2.opposite());
            z1.plus(z2) == square(eta1.plus(eta2)).plus(x1.opposite()).plus(x2.opposite())
        }),
{
    let e3 = difference(eta1, r1).plus(difference(eta2, r2));
    let two = two_elem::<T>();
    let eta = eta1.plus(eta2);
    let r = r1.plus(r2);
    let t = two.times(e3);
    T::lemma_results_valid(eta1, eta2);
    T::lemma_results_valid(r1, r2);
    lemma_difference_of_sums(eta1, eta2, r1, r2);
    assert(e3 == difference(eta, r));
    lemma_difference_restored(eta, r);
    T::lemma_results_valid(eta, r.opposite());
    lemma_square_of_sum(e3, r);
    // the parts of (e3 + r)^2
    let left = square(e3).plus(t.times(r1));
    let right = t.times(r2);
    T::lemma_times_distributes(t, r1, r2);
    T::lemma_plus_associates(square(e3), t.times(r1), t.times(r2));
    assert(left.plus(right) == square(e3).plus(t.times(r)));
    lemma_regroup(left, rs1, right, rs2);
    assert(left.plus(rs1).plus(right.plus(rs2)) == square(eta));
    lemma_regroup(left.plus(rs1), x1.opposite(), right.plus(rs2), x2.opposite());
    T::lemma_plus_associates(square(eta), x1.opposite(), x2.opposite());
}

/// The opened slope is the slope of the chord: with `omega = a (x2 - x1)`
/// and any inverse of `omega`, `omega^-1 (a (y2 - y1))` is
/// `(y2 - y1) / (x2 - x1)`.
pub proof fn lemma_opened_slope<T: Ring>(a: T, dx: T, dy: T, omega_inv: T)
    requires
        is_inverse_of(omega_inv, a.times(dx)),
    ensures
        is_inverse_of(inverse_of(dx), dx),
        omega_inv.times(a.times(dy)) == dy.times(inverse_of(dx)),
{
    let cand = a.times(omega_inv);
    T::lemma_results_valid(a, omega_inv);
    // dx (a omega_inv) = (a dx) omega_inv = 1
    T::lemma_times_associates(dx, a, omega_inv);
    T::lemma_times_commutes(dx, a);
    assert(is_inverse_of(cand, dx));
    lemma_inverse_is_unique(dx, cand, cand);
    T::lemma_times_associates(omega_inv, a, dy);
    T::lemma_times_commutes(omega_inv, a);
    T::lemma_times_commutes(cand, dy);
}

/// Two points with the same x-coordinate have no chord: the masked
/// denominator is zero, whatever the masks are.
pub proof fn lemma_equal_x_is_degenerate<T: Ring>(a: T, x: T)
    ensures
        a.times(difference(x, x)) == T::zero_elem(),
{
    T::lemma_plus_opposite(x);
    lemma_times_zero(a);
}

} // verus!
