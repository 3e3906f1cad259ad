//! The prime field that the coordinates of the points of the curve P-256 lie
//! in. Elements are held as four 64-bit limbs of their canonical integer; the
//! arithmetic is that of `ark-ff` on `ark_secp256r1::Fq`.

use crate::field::{is_inverse_of, Field, Ring};
use ark_ff::{BigInt, Field as ArkField, PrimeField};
use ark_secp256r1::Fq;
use vstd::arithmetic::div_mod::{
    lemma_add_mod_noop, lemma_add_mod_noop_right, lemma_fundamental_div_mod_converse,
    lemma_mod_bound, lemma_mul_mod_noop_general, lemma_small_mod,
};
use vstd::arithmetic::mul::{lemma_mul_is_associative, lemma_mul_is_distributive_add};
use vstd::prelude::*;

verus! {

/// The prime `2^256 - 2^224 + 2^192 + 2^96 - 1`.
pub open spec fn modulus() -> nat {
    0xffffffff00000001000000000000000000000000ffffffffffffffffffffffffnat
}

/// The integer that four limbs stand for, the first limb the least
/// significant one.
pub open spec fn value_of_limbs(limbs: [u64; 4]) -> nat {
    composed(limbs[0], limbs[1], limbs[2], limbs[3])
}

/// `l0 + l1 * 2^64 + l2 * 2^128 + l3 * 2^192`.
pub open spec fn composed(l0: u64, l1: u64, l2: u64, l3: u64) -> nat {
    (l0 + l1 * 0x1_0000_0000_0000_0000int + l2 * 0x1_0000_0000_0000_0000_0000_0000_0000_0000int
        + l3 * 0x1_0000_0000_0000_0000_0000_0000_0000_0000_0000_0000_0000_0000int) as nat
}

/// An element of the field.
#[derive(Debug, Clone, Copy, PartialEq, Eq, Structural, Hash)]
pub struct P256 {
    l0: u64,
    l1: u64,
    l2: u64,
    l3: u64,
}

/// The sum of two elements, by `ark-ff`'s `+` on `Fq`: the canonical integer
/// of the result is the sum of the operands' integers, reduced by the prime.
#[verifier::external_body]
fn fq_add(a: &P256, b: &P256) -> (r: P256)
    requires
        a.valid(),
        b.valid(),
    ensures
        r.valid(),
        r.value() == (a.value() + b.value()) % modulus(),
{
    let x = Fq::from_bigint(BigInt::new([a.l0, a.l1, a.l2, a.l3])).unwrap();
    let y = Fq::from_bigint(BigInt::new([b.l0, b.l1, b.l2, b.l3])).unwrap();
    let z = (x + y).into_bigint().0;
    P256 { l0: z[0], l1: z[1], l2: z[2], l3: z[3] }
}

/// The product of two elements, by `ark-ff`'s `*` on `Fq`: the canonical
/// integer of the result is the product of the operands' integers, reduced by
/// the prime.
///
/// This prime fills all 256 bits, so the last reduction has to heed the
/// carry out of the top limb. The multiplication that runs is the one that
/// `ark-secp256r1` derives for its configuration of `Fq`, which does; the
/// claim is made of that one, not of the backend's default.
#[verifier::external_body]
fn fq_mul(a: &P256, b: &P256) -> (r: P256)
    requires
        a.valid(),
        b.valid(),
    ensures
        r.valid(),
        r.value() == (a.value() * b.value()) % modulus(),
{
    let x = Fq::from_bigint(BigInt::new([a.l0, a.l1, a.l2, a.l3])).unwrap();
    let y = Fq::from_bigint(BigInt::new([b.l0, b.l1, b.l2, b.l3])).unwrap();
    let z = (x * y).into_bigint().0;
    P256 { l0: z[0], l1: z[1], l2: z[2], l3: z[3] }
}

/// The additive inverse of an element, by `ark-ff`'s unary `-` on `Fq`: the
/// result and the operand add up to zero.
#[verifier::external_body]
fn fq_neg(a: &P256) -> (r: P256)
    requires
        a.valid(),
    ensures
        r.valid(),
        (a.value() + r.value()) % modulus() == 0,
{
    let x = Fq::from_bigint(BigInt::new([a.l0, a.l1, a.l2, a.l3])).unwrap();
    let z = (-x).into_bigint().0;
    P256 { l0: z[0], l1: z[1], l2: z[2], l3: z[3] }
}

/// The multiplicative inverse of an element that is not zero, by `ark-ff`'s
/// `Field::inverse` on `Fq`, which returns a value for every such element:
/// the product of the result and the operand is one.
#[verifier::external_body]
fn fq_inverse(a: &P256) -> (r: P256)
    requires
        a.valid(),
        a.value() != 0,
    ensures
        r.valid(),
        (a.value() * r.value()) % modulus() == 1,
{
    let x = Fq::from_bigint(BigInt::new([a.l0, a.l1, a.l2, a.l3])).unwrap();
    let z = ArkField::inverse(&x).unwrap().into_bigint().0;
    P256 { l0: z[0], l1: z[1], l2: z[2], l3: z[3] }
}

/// An element drawn by the `rand` crate's thread-local generator, through
/// `ark-ff`'s sampling of `Fq`. Only that it is an element is claimed.
#[verifier::external_body]
fn fq_random() -> (r: P256)
    ensures
        r.valid(),
{
    let x: Fq = rand::Rng::gen(&mut rand::thread_rng());
    let z = x.into_bigint().0;
    P256 { l0: z[0], l1: z[1], l2: z[2], l3: z[3] }
}

impl P256 {
    /// The canonical integer of the element.
    pub closed spec fn value(self) -> nat {
        composed(self.l0, self.l1, self.l2, self.l3)
    }

    /// The element whose canonical integer is `v`, for `v` below `2^256`.
    pub closed spec fn from_value(v: nat) -> P256 {
        P256 {
            l0: (v % 0x1_0000_0000_0000_0000nat) as u64,
            l1: ((v / 0x1_0000_0000_0000_0000nat) % 0x1_0000_0000_0000_0000nat) as u64,
            l2: ((v / 0x1_0000_0000_0000_0000_0000_0000_0000_0000nat)
                % 0x1_0000_0000_0000_0000nat) as u64,
            l3: ((v / 0x1_0000_0000_0000_0000_0000_0000_0000_0000_0000_0000_0000_0000nat)
                % 0x1_0000_0000_0000_0000nat) as u64,
        }
    }

    /// The limbs of `from_value(v)` stand for `v` again.
    pub proof fn lemma_value_of_from_value(v: nat)
        requires
            v < 0x1_0000_0000_0000_0000_0000_0000_0000_0000_0000_0000_0000_0000_0000_0000_0000_0000nat,
        ensures
            Self::from_value(v).value() == v,
    {
    }

    /// An element is determined by its canonical integer.
    pub proof fn lemma_from_value_of_value(a: P256)
        ensures
            Self::from_value(a.value()) == a,
    {
        let k = 0x1_0000_0000_0000_0000int;
        let k2 = 0x1_0000_0000_0000_0000_0000_0000_0000_0000int;
        let k3 = 0x1_0000_0000_0000_0000_0000_0000_0000_0000_0000_0000_0000_0000int;
        let v = a.value() as int;
        let (l0, l1, l2, l3) = (a.l0 as int, a.l1 as int, a.l2 as int, a.l3 as int);
        let q1 = l1 + l2 * k + l3 * k2;
        let q2 = l2 + l3 * k;
        lemma_fundamental_div_mod_converse(v, k, q1, l0);
        lemma_fundamental_div_mod_converse(q1, k, q2, l1);
        lemma_fundamental_div_mod_converse(v, k2, q2, l0 + l1 * k);
        lemma_fundamental_div_mod_converse(q2, k, l3, l2);
        lemma_fundamental_div_mod_converse(v, k3, l3, l0 + l1 * k + l2 * k2);
        lemma_small_mod(l3 as nat, k as nat);
    }

    /// The element with the canonical integer `value`.
    pub fn new(value: u64) -> (r: Self)
        ensures
            r.valid(),
            r.value() == value,
    {
        P256 { l0: value, l1: 0, l2: 0, l3: 0 }
    }

    /// The element that the limbs stand for, the first limb the least
    /// significant one; none where they stand for the prime or more.
    pub fn from_limbs(limbs: [u64; 4]) -> (r: Option<Self>)
        ensures
            match r {
                Some(p) => p.valid() && p.value() == value_of_limbs(limbs),
                None => value_of_limbs(limbs) >= modulus(),
            },
    {
        let below = if limbs[3] != 0xffff_ffff_0000_0001 {
            limbs[3] < 0xffff_ffff_0000_0001
        } else if limbs[2] != 0 {
            false
        } else if limbs[1] != 0x0000_0000_ffff_ffff {
            limbs[1] < 0x0000_0000_ffff_ffff
        } else {
            limbs[0] < 0xffff_ffff_ffff_ffff
        };
        if below {
            Some(P256 { l0: limbs[0], l1: limbs[1], l2: limbs[2], l3: limbs[3] })
        } else {
            None
        }
    }

    /// The limbs of the canonical integer, the first the least significant
    /// one.
    pub fn to_limbs(self) -> (limbs: [u64; 4])
        ensures
            value_of_limbs(limbs) == self.value(),
    {
        [self.l0, self.l1, self.l2, self.l3]
    }
}

/// A reduced integer is the canonical integer of an element.
proof fn lemma_reduced(x: int)
    ensures
        0 <= x % (modulus() as int) < modulus(),
        P256::from_value((x % (modulus() as int)) as nat).value() == x % (modulus() as int),
        P256::from_value((x % (modulus() as int)) as nat).valid(),
{
    lemma_mod_bound(x, modulus() as int);
    P256::lemma_value_of_from_value((x % (modulus() as int)) as nat);
}

impl Ring for P256 {
    open spec fn valid(self) -> bool {
        self.value() < modulus()
    }

    closed spec fn zero_elem() -> Self {
        P256::from_value(0)
    }

    closed spec fn one_elem() -> Self {
        P256::from_value(1)
    }

    closed spec fn plus(self, rhs: Self) -> Self {
        P256::from_value((self.value() + rhs.value()) % modulus())
    }

    closed spec fn opposite(self) -> Self {
        P256::from_value(((0 - self.value()) % (modulus() as int)) as nat)
    }

    closed spec fn times(self, rhs: Self) -> Self {
        P256::from_value((self.value() * rhs.value()) % modulus())
    }

    proof fn lemma_results_valid(a: Self, b: Self) {
        P256::lemma_value_of_from_value(0);
        P256::lemma_value_of_from_value(1);
        lemma_reduced((a.value() + b.value()) as int);
        lemma_reduced(0 - a.value());
        lemma_reduced((a.value() * b.value()) as int);
    }

    proof fn lemma_plus_commutes(a: Self, b: Self) {
    }

    proof fn lemma_plus_associates(a: Self, b: Self, c: Self) {
        let m = modulus() as int;
        let (x, y, z) = (a.value() as int, b.value() as int, c.value() as int);
        lemma_reduced(x + y);
        lemma_reduced(y + z);
        lemma_add_mod_noop_right(z, x + y, m);
        lemma_add_mod_noop_right(x, y + z, m);
        assert(((x + y) % m + z) % m == (z + (x + y)) % m);
    }

    proof fn lemma_plus_zero(a: Self) {
        P256::lemma_value_of_from_value(0);
        lemma_small_mod(a.value(), modulus());
        P256::lemma_from_value_of_value(a);
    }

    proof fn lemma_plus_opposite(a: Self) {
        let m = modulus() as int;
        let x = a.value() as int;
        lemma_reduced(0 - x);
        lemma_add_mod_noop_right(x, 0 - x, m);
        assert((x + (0 - x)) % m == 0);
    }

    proof fn lemma_times_commutes(a: Self, b: Self) {
        assert(a.value() * b.value() == b.value() * a.value()) by (nonlinear_arith);
    }

    proof fn lemma_times_associates(a: Self, b: Self, c: Self) {
        let m = modulus() as int;
        let (x, y, z) = (a.value() as int, b.value() as int, c.value() as int);
        lemma_reduced(x * y);
        lemma_reduced(y * z);
        lemma_mul_mod_noop_general(x * y, z, m);
        lemma_mul_mod_noop_general(x, y * z, m);
        lemma_mul_is_associative(x, y, z);
    }

    proof fn lemma_times_one(a: Self) {
        P256::lemma_value_of_from_value(1);
        assert(a.value() * 1 == a.value());
        lemma_small_mod(a.value(), modulus());
        P256::lemma_from_value_of_value(a);
    }

    proof fn lemma_times_distributes(a: Self, b: Self, c: Self) {
        let m = modulus() as int;
        let (x, y, z) = (a.value() as int, b.value() as int, c.value() as int);
        lemma_reduced(y + z);
        lemma_reduced(x * y);
        lemma_reduced(x * z);
        lemma_mul_mod_noop_general(x, y + z, m);
        lemma_mul_is_distributive_add(x, y, z);
        lemma_add_mod_noop(x * y, x * z, m);
    }

    fn zero() -> (r: Self) {
        P256 { l0: 0, l1: 0, l2: 0, l3: 0 }
    }

    fn one() -> (r: Self) {
        P256 { l0: 1, l1: 0, l2: 0, l3: 0 }
    }

    fn add(self, rhs: Self) -> (r: Self) {
        let r = fq_add(&self, &rhs);
        proof {
            P256::lemma_from_value_of_value(r);
        }
        r
    }

    fn neg(self) -> (r: Self) {
        let r = fq_neg(&self);
        proof {
            let m = modulus() as int;
            let x = self.value() as int;
            lemma_reduced(0 - x);
            let expected = (0 - x) % m;
            lemma_add_mod_noop_right(x, 0 - x, m);
            assert((x + expected) % m == 0);
            lemma_same_complement(x, r.value() as int, expected);
            P256::lemma_from_value_of_value(r);
        }
        r
    }

    fn mul(self, rhs: Self) -> (r: Self) {
        let r = fq_mul(&self, &rhs);
        proof {
            P256::lemma_from_value_of_value(r);
        }
        r
    }

    fn is_zero(self) -> (b: bool) {
        self.l0 == 0 && self.l1 == 0 && self.l2 == 0 && self.l3 == 0
    }

    fn rand() -> (r: Self) {
        fq_random()
    }
}

/// Two reduced integers that both bring `x` to a multiple of the prime are
/// the same.
proof fn lemma_same_complement(x: int, r: int, s: int)
    requires
        0 <= r < modulus(),
        0 <= s < modulus(),
        (x + r) % (modulus() as int) == 0,
        (x + s) % (modulus() as int) == 0,
    ensures
        r == s,
{
    let m = modulus() as int;
    vstd::arithmetic::div_mod::lemma_fundamental_div_mod(x + r, m);
    vstd::arithmetic::div_mod::lemma_fundamental_div_mod(x + s, m);
    let q1 = (x + r) / m;
    let q2 = (x + s) / m;
    assert(r - s == m * q1 - m * q2);
    assert(m * q1 - m * q2 == m * (q1 - q2)) by (nonlinear_arith);
    if q1 - q2 >= 1 {
        assert(m * (q1 - q2) >= m) by (nonlinear_arith)
            requires
                q1 - q2 >= 1,
                m > 0,
        ;
    }
    if q1 - q2 <= -1 {
        assert(m * (q1 - q2) <= -m) by (nonlinear_arith)
            requires
                q1 - q2 <= -1,
                m > 0,
        ;
    }
}

impl Field for P256 {
    fn inverse(self) -> (r: Self) {
        proof {
            P256::lemma_value_of_from_value(0);
            P256::lemma_from_value_of_value(self);
        }
        let r = fq_inverse(&self);
        proof {
            assert(is_inverse_of(r, self));
        }
        r
    }
}

/// What the operations are on the canonical integers.
pub proof fn lemma_p256_operations(a: P256, b: P256)
    ensures
        P256::zero_elem().value() == 0,
        P256::one_elem().value() == 1,
        a.plus(b).value() == (a.value() + b.value()) % modulus(),
        a.times(b).value() == (a.value() * b.value()) % modulus(),
        a.opposite().value() == (0 - a.value()) % (modulus() as int),
{
    P256::lemma_value_of_from_value(0);
    P256::lemma_value_of_from_value(1);
    lemma_reduced((a.value() + b.value()) as int);
    lemma_reduced((a.value() * b.value()) as int);
    lemma_reduced(0 - a.value());
}

} // verus!
