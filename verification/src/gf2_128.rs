//! The binary field with `2^128` elements: polynomials over the two-element
//! field modulo `x^128 + x^7 + x^2 + x + 1`. Bit `i` of the 128-bit word is
//! the coefficient of `x^i`; addition is exclusive-or.

use crate::field::Ring;
use vstd::prelude::*;

verus! {

/// An element of the field.
#[derive(Debug, Copy, Clone, PartialEq, Eq, Structural, Hash)]
pub struct Gf2_128 {
    inner: u128,
}

/// The `rand` crate's thread-local generator, asked for one `u128`. Nothing
/// is claimed of the word that comes back.
#[verifier::external_body]
fn random_word() -> u128 {
    rand::Rng::gen::<u128>(&mut rand::thread_rng())
}

/// The polynomial `a` times `x`, reduced: the coefficients move up by one
/// place, and where `x^127` was present, `x^128 = x^7 + x^2 + x + 1` takes
/// its place.
pub open spec fn times_x(a: u128) -> u128 {
    if a >> 127 == 1 {
        (a << 1) ^ 0x87
    } else {
        a << 1
    }
}

/// The sum of `x^i * v` over the places `i < n` at which `p` has a
/// coefficient: the polynomial of the lowest `n` coefficients of `p`, as an
/// operator, on `v`.
pub open spec fn apply(p: u128, v: u128, n: nat) -> u128
    decreases n,
{
    if n == 0 {
        0
    } else {
        (if p & 1 == 1 {
            v
        } else {
            0
        }) ^ apply(p >> 1, times_x(v), (n - 1) as nat)
    }
}

/// The product of two polynomials, reduced.
pub open spec fn product(a: u128, b: u128) -> u128 {
    apply(b, a, 128)
}

proof fn lemma_xor(a: u128, b: u128, c: u128)
    by (bit_vector)
    ensures
        a ^ b == b ^ a,
        (a ^ b) ^ c == a ^ (b ^ c),
        a ^ 0 == a,
        0 ^ a == a,
        a ^ a == 0,
{
}

proof fn lemma_xor_regroup(x: u128, y: u128, a: u128, b: u128)
    by (bit_vector)
    ensures
        (x ^ y) ^ (a ^ b) == (x ^ a) ^ (y ^ b),
{
}

proof fn lemma_times_x_linear(a: u128, b: u128)
    by (bit_vector)
    ensures
        times_x(a ^ b) == times_x(a) ^ times_x(b),
        times_x(0) == 0,
{
}

proof fn lemma_bits_of_xor(p: u128, q: u128)
    by (bit_vector)
    ensures
        (p ^ q) >> 1 == (p >> 1) ^ (q >> 1),
        ((p ^ q) & 1 == 1) == ((p & 1 == 1) != (q & 1 == 1)),
{
}

proof fn lemma_bits_small()
    by (bit_vector)
    ensures
        0u128 >> 1 == 0,
        0u128 & 1 == 0,
        1u128 >> 1 == 0,
        1u128 & 1 == 1,
{
}

proof fn lemma_top_place(p: u128)
    by (bit_vector)
    ensures
        (if (p >> 127) & 1 == 1 {
            1u128 << 127
        } else {
            0
        }) == (p >> 127) << 127,
{
}

#[verifier::rlimit(100)]
proof fn lemma_next_shift(p: u128, k: u128, next: u128)
    by (bit_vector)
    requires
        k < 127,
        next == k + 1,
    ensures
        (p >> k) >> 1 == p >> next,
{
}

#[verifier::rlimit(100)]
proof fn lemma_next_power(k: u128, next: u128)
    by (bit_vector)
    requires
        k < 127,
        next == k + 1,
    ensures
        times_x(1u128 << k) == 1u128 << next,
{
}

#[verifier::rlimit(100)]
proof fn lemma_next_coefficient(p: u128, k: u128, next: u128)
    by (bit_vector)
    requires
        k < 127,
        next == k + 1,
    ensures
        (if (p >> k) & 1 == 1 {
            1u128 << k
        } else {
            0
        }) ^ ((p >> next) << next) == (p >> k) << k,
{
}

proof fn lemma_no_shift(p: u128)
    by (bit_vector)
    ensures
        p >> 0 == p,
        p << 0 == p,
        1u128 << 0 == 1,
{
}

/// The operator of any polynomial takes zero to zero.
proof fn lemma_apply_to_zero(p: u128, n: nat)
    ensures
        apply(p, 0, n) == 0,
    decreases n,
{
    if n > 0 {
        lemma_times_x_linear(0, 0);
        lemma_apply_to_zero(p >> 1, (n - 1) as nat);
        lemma_xor(0, 0, 0);
    }
}

/// The operator of the zero polynomial takes everything to zero.
proof fn lemma_apply_zero(v: u128, n: nat)
    ensures
        apply(0, v, n) == 0,
    decreases n,
{
    if n > 0 {
        lemma_bits_small();
        lemma_apply_zero(times_x(v), (n - 1) as nat);
        lemma_xor(0, 0, 0);
    }
}

/// The operator of the polynomial one is the identity.
proof fn lemma_apply_one(v: u128, n: nat)
    requires
        n > 0,
    ensures
        apply(1, v, n) == v,
{
    lemma_bits_small();
    lemma_apply_zero(times_x(v), (n - 1) as nat);
    lemma_xor(v, 0, 0);
}

/// The operator of a polynomial is additive.
proof fn lemma_apply_additive(p: u128, v: u128, w: u128, n: nat)
    ensures
        apply(p, v ^ w, n) == apply(p, v, n) ^ apply(p, w, n),
    decreases n,
{
    if n == 0 {
        lemma_xor(0, 0, 0);
    } else {
        let m = (n - 1) as nat;
        lemma_times_x_linear(v, w);
        lemma_apply_additive(p >> 1, times_x(v), times_x(w), m);
        let a = apply(p >> 1, times_x(v), m);
        let b = apply(p >> 1, times_x(w), m);
        if p & 1 == 1 {
            lemma_xor_regroup(v, w, a, b);
        } else {
            lemma_xor_regroup(0, 0, a, b);
            lemma_xor(0, 0, 0);
        }
    }
}

/// The operator of a polynomial commutes with multiplication by `x`.
proof fn lemma_apply_times_x(p: u128, v: u128, n: nat)
    ensures
        apply(p, times_x(v), n) == times_x(apply(p, v, n)),
    decreases n,
{
    lemma_times_x_linear(0, 0);
    if n > 0 {
        let m = (n - 1) as nat;
        lemma_apply_times_x(p >> 1, times_x(v), m);
        let rest = apply(p >> 1, times_x(v), m);
        if p & 1 == 1 {
            lemma_times_x_linear(v, rest);
        } else {
            lemma_times_x_linear(0, rest);
        }
    }
}

/// The operators of two polynomials add up to the operator of their sum.
proof fn lemma_apply_sum(p: u128, q: u128, v: u128, n: nat)
    ensures
        apply(p ^ q, v, n) == apply(p, v, n) ^ apply(q, v, n),
    decreases n,
{
    if n == 0 {
        lemma_xor(0, 0, 0);
    } else {
        let m = (n - 1) as nat;
        lemma_bits_of_xor(p, q);
        lemma_apply_sum(p >> 1, q >> 1, times_x(v), m);
        let a = apply(p >> 1, times_x(v), m);
        let b = apply(q >> 1, times_x(v), m);
        let x = if p & 1 == 1 {
            v
        } else {
            0
        };
        let y = if q & 1 == 1 {
            v
        } else {
            0
        };
        lemma_xor_regroup(x, y, a, b);
        lemma_xor(v, 0, 0);
        lemma_xor(0, v, 0);
    }
}

/// The operators of two polynomials commute.
proof fn lemma_apply_commutes(a: u128, n: nat, b: u128, m: nat, w: u128)
    ensures
        apply(b, apply(a, w, n), m) == apply(a, apply(b, w, m), n),
    decreases n,
{
    if n == 0 {
        lemma_apply_to_zero(b, m);
    } else {
        let k = (n - 1) as nat;
        let head = if a & 1 == 1 {
            w
        } else {
            0
        };
        let rest = apply(a >> 1, times_x(w), k);
        lemma_apply_additive(b, head, rest, m);
        lemma_apply_commutes(a >> 1, k, b, m, times_x(w));
        lemma_apply_times_x(b, w, m);
        lemma_apply_to_zero(b, m);
    }
}

/// From place `k` on, the operator of `p` on `x^k` gives the coefficients of
/// `p` from place `k` on.
proof fn lemma_apply_to_place(p: u128, k: u128)
    requires
        k <= 127,
    ensures
        apply(p >> k, 1u128 << k, (128 - k) as nat) == (p >> k) << k,
    decreases 127 - k,
{
    if k == 127 {
        lemma_top_place(p);
        assert(apply((p >> 127) >> 1, times_x(1u128 << 127), 0) == 0);
        lemma_xor((p >> 127) << 127, 0, 0);
    } else {
        let next = (k + 1) as u128;
        lemma_next_shift(p, k, next);
        lemma_next_power(k, next);
        lemma_next_coefficient(p, k, next);
        lemma_apply_to_place(p, next);
        assert((128 - k) as nat - 1 == (128 - next) as nat);
    }
}

/// A polynomial is what its operator makes of one.
proof fn lemma_apply_to_one(p: u128)
    ensures
        apply(p, 1, 128) == p,
{
    lemma_apply_to_place(p, 0);
    lemma_no_shift(p);
}

/// The product is commutative.
pub proof fn lemma_product_commutes(a: u128, b: u128)
    ensures
        product(a, b) == product(b, a),
{
    lemma_apply_to_one(a);
    lemma_apply_to_one(b);
    lemma_apply_commutes(a, 128, b, 128, 1);
}

/// The product is associative.
pub proof fn lemma_product_associates(a: u128, b: u128, c: u128)
    ensures
        product(product(a, b), c) == product(a, product(b, c)),
{
    // (a b) c = c(b(a)); a (b c) = (b c) a = a(c(b)) = c(a(b)) = c(b(a))
    lemma_product_commutes(a, product(b, c));
    lemma_apply_commutes(a, 128, c, 128, b);
    lemma_product_commutes(a, b);
}

/// The product distributes over the sum.
pub proof fn lemma_product_distributes(a: u128, b: u128, c: u128)
    ensures
        product(a, b ^ c) == product(a, b) ^ product(a, c),
{
    lemma_apply_sum(b, c, a, 128);
}

impl Gf2_128 {
    /// The polynomial of the element, coefficient `i` at bit `i`.
    pub closed spec fn word(self) -> u128 {
        self.inner
    }

    /// The element whose polynomial is `input`: `5` is `1 + x^2`.
    pub fn new(input: u128) -> (r: Self)
        ensures
            r.word() == input,
    {
        Gf2_128 { inner: input }
    }

    /// The polynomial of the element.
    pub fn to_inner(self) -> (word: u128)
        ensures
            word == self.word(),
    {
        self.inner
    }

    /// The element `x^rhs`.
    pub fn two_pow(rhs: u32) -> (r: Self)
        requires
            rhs < 128,
        ensures
            r.word() == 1u128 << rhs,
    {
        Gf2_128 { inner: 1u128 << rhs }
    }

    /// An element is determined by its polynomial.
    pub proof fn lemma_word_determines(a: Self, b: Self)
        requires
            a.word() == b.word(),
        ensures
            a == b,
    {
    }
}

impl Ring for Gf2_128 {
    open spec fn valid(self) -> bool {
        true
    }

    closed spec fn zero_elem() -> Self {
        Gf2_128 { inner: 0 }
    }

    closed spec fn one_elem() -> Self {
        Gf2_128 { inner: 1 }
    }

    closed spec fn plus(self, rhs: Self) -> Self {
        Gf2_128 { inner: self.inner ^ rhs.inner }
    }

    closed spec fn opposite(self) -> Self {
        self
    }

    closed spec fn times(self, rhs: Self) -> Self {
        Gf2_128 { inner: product(self.inner, rhs.inner) }
    }

    proof fn lemma_results_valid(a: Self, b: Self) {
    }

    proof fn lemma_plus_commutes(a: Self, b: Self) {
        lemma_xor(a.inner, b.inner, 0);
    }

    proof fn lemma_plus_associates(a: Self, b: Self, c: Self) {
        lemma_xor(a.inner, b.inner, c.inner);
    }

    proof fn lemma_plus_zero(a: Self) {
        lemma_xor(a.inner, 0, 0);
    }

    proof fn lemma_plus_opposite(a: Self) {
        lemma_xor(a.inner, 0, 0);
    }

    proof fn lemma_times_commutes(a: Self, b: Self) {
        lemma_product_commutes(a.inner, b.inner);
    }

    proof fn lemma_times_associates(a: Self, b: Self, c: Self) {
        lemma_product_associates(a.inner, b.inner, c.inner);
    }

    proof fn lemma_times_one(a: Self) {
        lemma_apply_one(a.inner, 128);
    }

    proof fn lemma_times_distributes(a: Self, b: Self, c: Self) {
        lemma_product_distributes(a.inner, b.inner, c.inner);
    }

    fn zero() -> (r: Self) {
        Gf2_128 { inner: 0 }
    }

    fn one() -> (r: Self) {
        Gf2_128 { inner: 1 }
    }

    fn add(self, rhs: Self) -> (r: Self) {
        Gf2_128 { inner: self.inner ^ rhs.inner }
    }

    fn neg(self) -> (r: Self) {
        self
    }

    fn mul(self, rhs: Self) -> (r: Self) {
        let mut x: u128 = self.inner;
        let mut y: u128 = rhs.inner;
        let mut result: u128 = 0;
        let mut i: u32 = 0;
        proof {
            lemma_xor(apply(y, x, 128), 0, 0);
        }
        while i < 128
            invariant
                i <= 128,
                result ^ apply(y, x, (128 - i) as nat) == product(self.inner, rhs.inner),
            decreases 128 - i,
        {
            let ghost rest = apply(y >> 1, times_x(x), (127 - i) as nat);
            if y & 1 == 1 {
                proof {
                    lemma_xor(result, x, rest);
                }
                result = result ^ x;
            } else {
                proof {
                    lemma_xor(rest, 0, 0);
                }
            }
            x = if x >> 127 == 1 {
                (x << 1) ^ 0x87
            } else {
                x << 1
            };
            y = y >> 1;
            i = i + 1;
        }
        proof {
            lemma_xor(result, 0, 0);
        }
        Gf2_128 { inner: result }
    }

    fn is_zero(self) -> (b: bool) {
        self.inner == 0
    }

    fn rand() -> (r: Self) {
        Gf2_128 { inner: random_word() }
    }
}

/// What the operations are on the polynomials.
pub proof fn lemma_gf2_128_operations(a: Gf2_128, b: Gf2_128)
    ensures
        Gf2_128::zero_elem().word() == 0,
        Gf2_128::one_elem().word() == 1,
        a.plus(b).word() == a.word() ^ b.word(),
        a.opposite() == a,
        a.times(b).word() == product(a.word(), b.word()),
        Gf2_128::one_elem().plus(Gf2_128::one_elem()) == Gf2_128::zero_elem(),
{
    lemma_xor(1, 0, 0);
}

} // verus!
