//! Shares of the x-coordinate of the sum of two points of an elliptic curve,
//! one point known to each party.
//!
//! The slope of the chord through the points is a quotient of differences of
//! coordinates that no party knows. Two multiplication triples, made from one
//! batch of oblivious linear evaluation, turn it into openings of masked
//! values and local arithmetic.

use crate::field::{difference, inverse_of, is_inverse_of, square, two_elem, Field, Ring};
use crate::func::ole::{lemma_outputs_share_products, Ole};
use crate::func::Role;
use chord::{
    chord_slope, chord_sum_x, lemma_equal_x_is_degenerate, lemma_final_shares,
    lemma_masked_difference, lemma_opened_slope, lemma_square_shares, lemma_triple_shares,
};
use vstd::prelude::*;

pub mod chord;
pub mod prover;
pub mod verifier_side;

pub use prover::Prover;
pub use verifier_side::Verifier;

verus! {

/// Why a run ends without shares.
#[derive(Debug, Clone, Copy, PartialEq, Eq)]
pub enum E2fError {
    /// The opened denominator is zero: as with two points of equal
    /// x-coordinate, for which the chord formula has no value.
    DegenerateInput,
}

/// The slot holds a valid element.
pub open spec fn filled<T: Field>(slot: Option<T>) -> bool {
    slot is Some && slot->0.valid()
}

/// The slot holds a point with valid coordinates.
pub open spec fn point_filled<T: Field>(slot: Option<(T, T)>) -> bool {
    slot is Some && (slot->0).0.valid() && (slot->0).1.valid()
}

/// The denominator as the parties open it: the difference of the
/// x-coordinates, masked by the sum of the parties' first masks.
pub open spec fn masked_denominator<T: Field>(a1: T, a2: T, x1: T, x2: T) -> T {
    a1.plus(a2).times(difference(x2, x1))
}

/// What preprocessing leaves in the two states: the masks, the shares of the
/// masks' cross products that the parties took from the batch, and the
/// shares of the two triples' products and of the square of the slope's mask
/// that each party made of them.
pub open spec fn preprocessed<T: Field>(p: Prover<T>, v: Verifier<T>) -> bool {
    &&& filled(p.a1) && filled(p.b1) && filled(p.b1_prime) && filled(p.r1)
    &&& filled(v.a2) && filled(v.b2) && filled(v.b2_prime) && filled(v.r2)
    &&& filled(p.a1_b2_share) && filled(p.a2_b1_share) && filled(p.a1_b2_prime_share)
    &&& filled(p.a2_b1_prime_share) && filled(p.r1_r2_share)
    &&& filled(v.a1_b2_share) && filled(v.a2_b1_share) && filled(v.a1_b2_prime_share)
    &&& filled(v.a2_b1_prime_share) && filled(v.r1_r2_share)
    &&& p.a1_b2_share->0.plus(v.a1_b2_share->0) == p.a1->0.times(v.b2->0)
    &&& p.a2_b1_share->0.plus(v.a2_b1_share->0) == p.b1->0.times(v.a2->0)
    &&& p.a1_b2_prime_share->0.plus(v.a1_b2_prime_share->0) == p.a1->0.times(v.b2_prime->0)
    &&& p.a2_b1_prime_share->0.plus(v.a2_b1_prime_share->0) == p.b1_prime->0.times(v.a2->0)
    &&& p.r1_r2_share->0.plus(v.r1_r2_share->0) == p.r1->0.times(v.r2->0)
    &&& p.c1 == Some(p.a1->0.times(p.b1->0).plus(p.a1_b2_share->0).plus(p.a2_b1_share->0))
    &&& v.c2 == Some(v.a2->0.times(v.b2->0).plus(v.a1_b2_share->0).plus(v.a2_b1_share->0))
    &&& p.c1_prime == Some(
        p.a1->0.times(p.b1_prime->0).plus(p.a1_b2_prime_share->0).plus(p.a2_b1_prime_share->0),
    )
    &&& v.c2_prime == Some(
        v.a2->0.times(v.b2_prime->0).plus(v.a1_b2_prime_share->0).plus(v.a2_b1_prime_share->0),
    )
    &&& p.r_squared_share == Some(square(p.r1->0).plus(two_elem::<T>().times(p.r1_r2_share->0)))
    &&& v.r_squared_share == Some(square(v.r2->0).plus(two_elem::<T>().times(v.r1_r2_share->0)))
    &&& filled(p.c1) && filled(p.c1_prime) && filled(p.r_squared_share)
    &&& filled(v.c2) && filled(v.c2_prime) && filled(v.r_squared_share)
    &&& p.c1->0.plus(v.c2->0) == p.a1->0.plus(v.a2->0).times(p.b1->0.plus(v.b2->0))
    &&& p.c1_prime->0.plus(v.c2_prime->0) == p.a1->0.plus(v.a2->0).times(
        p.b1_prime->0.plus(v.b2_prime->0),
    )
    &&& p.r_squared_share->0.plus(v.r_squared_share->0) == square(p.r1->0.plus(v.r2->0))
}

/// The first value that the parties open: `x2 - x1 - (b1 + b2)`, as the sum
/// of the two shares of it.
pub open spec fn opened_varepsilon1<T: Field>(p: Prover<T>, v: Verifier<T>) -> T {
    (p.ec_point->0).0.opposite().plus(p.b1->0.opposite()).plus(
        difference((v.ec_point->0).0, v.b2->0),
    )
}

/// The second value that the parties open: `y2 - y1 - (b1' + b2')`.
pub open spec fn opened_varepsilon2<T: Field>(p: Prover<T>, v: Verifier<T>) -> T {
    (p.ec_point->0).1.opposite().plus(p.b1_prime->0.opposite()).plus(
        difference((v.ec_point->0).1, v.b2_prime->0),
    )
}

/// The masked denominator that the parties open, as the sum of the two
/// shares of it.
pub open spec fn opened_omega<T: Field>(p: Prover<T>, v: Verifier<T>) -> T {
    p.omega_share->0.plus(v.omega_share->0)
}

/// The third value that the parties open: the slope less the sum of its
/// masks.
pub open spec fn opened_varepsilon3<T: Field>(p: Prover<T>, v: Verifier<T>) -> T {
    difference(p.eta_share->0, p.r1->0).plus(difference(v.eta_share->0, v.r2->0))
}

/// What the fifth round leaves in the two states: the points, and each
/// party's share of the masked denominator.
pub open spec fn denominator_shared<T: Field>(
    p: Prover<T>,
    v: Verifier<T>,
    prover_point: (T, T),
    verifier_point: (T, T),
) -> bool {
    &&& p.ec_point == Some(prover_point)
    &&& v.ec_point == Some(verifier_point)
    &&& filled(p.omega_share)
    &&& filled(v.omega_share)
    &&& p.omega_share == Some(opened_varepsilon1(p, v).times(p.a1->0).plus(p.c1->0))
    &&& v.omega_share == Some(opened_varepsilon1(p, v).times(v.a2->0).plus(v.c2->0))
    &&& opened_omega(p, v) == masked_denominator(
        p.a1->0,
        v.a2->0,
        prover_point.0,
        verifier_point.0,
    )
}

/// What the sixth and seventh round leave in the two states: each party's
/// share of the slope and of the x-coordinate.
pub open spec fn slope_and_sum_shared<T: Field>(p: Prover<T>, v: Verifier<T>) -> bool {
    let omega_inv = inverse_of(opened_omega(p, v));
    let e2 = opened_varepsilon2(p, v);
    let e3 = opened_varepsilon3(p, v);
    let two = two_elem::<T>();
    &&& filled(p.eta_share)
    &&& filled(v.eta_share)
    &&& p.eta_share == Some(omega_inv.times(e2.times(p.a1->0).plus(p.c1_prime->0)))
    &&& v.eta_share == Some(omega_inv.times(e2.times(v.a2->0).plus(v.c2_prime->0)))
    &&& filled(p.z1)
    &&& filled(v.z2)
    &&& p.z1 == Some(
        square(e3).plus(two.times(e3).times(p.r1->0)).plus(p.r_squared_share->0).plus(
            (p.ec_point->0).0.opposite(),
        ),
    )
    &&& v.z2 == Some(
        two.times(e3).times(v.r2->0).plus(v.r_squared_share->0).plus((v.ec_point->0).0.opposite()),
    )
}

/// Runs the protocol for the prover's point and the verifier's point and
/// returns the two parties' shares of the x-coordinate of the points' sum.
/// Both states are fresh: a run starts from nothing and draws its own masks.
pub fn e2f<T: Field>(
    prover_point: (T, T),
    prover: &mut Prover<T>,
    verifier_point: (T, T),
    verifier: &mut Verifier<T>,
) -> (res: Result<(T, T), E2fError>)
    requires
        *old(prover) == Prover::<T>::empty(),
        *old(verifier) == Verifier::<T>::empty(),
        prover_point.0.valid(),
        prover_point.1.valid(),
        verifier_point.0.valid(),
        verifier_point.1.valid(),
    ensures
        preprocessed(*final(prover), *final(verifier)),
        denominator_shared(*final(prover), *final(verifier), prover_point, verifier_point),
        match res {
            Ok((z1, z2)) => {
                &&& opened_omega(*final(prover), *final(verifier)) != T::zero_elem()
                &&& is_inverse_of(
                    inverse_of(opened_omega(*final(prover), *final(verifier))),
                    opened_omega(*final(prover), *final(verifier)),
                )
                &&& is_inverse_of(
                    inverse_of(difference(verifier_point.0, prover_point.0)),
                    difference(verifier_point.0, prover_point.0),
                )
                &&& slope_and_sum_shared(*final(prover), *final(verifier))
                &&& final(prover).z1 == Some(z1)
                &&& final(verifier).z2 == Some(z2)
                &&& z1.valid()
                &&& z2.valid()
                &&& z1.plus(z2) == chord_sum_x(prover_point, verifier_point)
                &&& final(prover).eta_share->0.plus(final(verifier).eta_share->0) == chord_slope(
                    prover_point,
                    verifier_point,
                )
            },
            Err(e) => {
                &&& e == E2fError::DegenerateInput
                &&& final(prover).eta_share is None
                &&& final(verifier).eta_share is None
                &&& final(prover).z1 is None
                &&& final(verifier).z2 is None
                &&& opened_omega(*final(prover), *final(verifier)) == T::zero_elem()
            },
        },
        prover_point.0 == verifier_point.0 ==> res is Err,
{
    let mut ole: Ole<T> = Ole::default();

    // Preprocessing
    prover.preprocess1();
    verifier.preprocess1();

    prover.preprocess2_ole_input(&mut ole);
    verifier.preprocess2_ole_input(&mut ole);

    let ghost batch = ole;
    let ghost prover_masked = *prover;
    let ghost verifier_masked = *verifier;
    let taken = prover.preprocess2_ole_output(&mut ole);
    if taken.is_err() {
        assert(false);
        return unreached();
    }
    let ghost after_first = ole;
    let ghost out_p = choose|out: Vec<T>|
        {
            &&& #[trigger] batch.output_step(Role::Sender, &after_first, Ok(out))
            &&& out.len() >= 5
            &&& *prover == (Prover {
                a1_b2_share: Some(out[0]),
                a2_b1_share: Some(out[1]),
                a1_b2_prime_share: Some(out[2]),
                a2_b1_prime_share: Some(out[3]),
                r1_r2_share: Some(out[4]),
                ..prover_masked
            })
        };
    let taken = verifier.preprocess2_ole_output(&mut ole);
    if taken.is_err() {
        assert(false);
        return unreached();
    }
    let ghost out_v = choose|out: Vec<T>|
        {
            &&& #[trigger] after_first.output_step(Role::Receiver, &ole, Ok(out))
            &&& out.len() >= 5
            &&& *verifier == (Verifier {
                a1_b2_share: Some(out[0]),
                a2_b1_share: Some(out[1]),
                a1_b2_prime_share: Some(out[2]),
                a2_b1_prime_share: Some(out[3]),
                r1_r2_share: Some(out[4]),
                ..verifier_masked
            })
        };
    let ghost a1 = prover.a1->0;
    let ghost b1 = prover.b1->0;
    let ghost b1_prime = prover.b1_prime->0;
    let ghost r1 = prover.r1->0;
    let ghost a2 = verifier.a2->0;
    let ghost b2 = verifier.b2->0;
    let ghost b2_prime = verifier.b2_prime->0;
    let ghost r2 = verifier.r2->0;
    proof {
        let s = prover_masked.ole_vector();
        let r = verifier_masked.ole_vector();
        lemma_outputs_share_products(
            batch,
            s,
            r,
            Role::Sender,
            after_first,
            out_p,
            Role::Receiver,
            ole,
            out_v,
        );
        assert(s[0] == a1 && s[1] == b1 && s[2] == a1 && s[3] == b1_prime && s[4] == r1);
        assert(r[0] == b2 && r[1] == a2 && r[2] == b2_prime && r[3] == a2 && r[4] == r2);
        assert(out_p[0].plus(out_v[0]) == a1.times(b2));
        assert(out_p[1].plus(out_v[1]) == b1.times(a2));
        assert(out_p[2].plus(out_v[2]) == a1.times(b2_prime));
        assert(out_p[3].plus(out_v[3]) == b1_prime.times(a2));
        assert(out_p[4].plus(out_v[4]) == r1.times(r2));
    }

    prover.preprocess3();
    verifier.preprocess3();

    prover.preprocess4();
    verifier.preprocess4();
    proof {
        lemma_triple_shares(a1, b1, a2, b2, out_p[0], out_p[1], out_v[0], out_v[1]);
        lemma_triple_shares(a1, b1_prime, a2, b2_prime, out_p[2], out_p[3], out_v[2], out_v[3]);
        lemma_square_shares(r1, r2, out_p[4], out_v[4]);
        assert(preprocessed(*prover, *verifier));
    }

    // Handshake
    prover.handshake5_input_ec(prover_point);
    verifier.handshake5_input_ec(verifier_point);

    let varepsilon1_share_prover = prover.handshake5_varepsilon1_share_open();
    let varepsilon1_share_verifier = verifier.handshake5_varepsilon1_share_open();
    let varepsilon1 = varepsilon1_share_prover.add(varepsilon1_share_verifier);
    proof {
        T::lemma_results_valid(varepsilon1_share_prover, varepsilon1_share_verifier);
    }

    prover.handshake5_set_omega(varepsilon1);
    verifier.handshake5_set_omega(varepsilon1);

    let omega_share_prover = prover.handshake6_omega_share_open();
    let omega_share_verifier = verifier.handshake6_omega_share_open();
    let omega = omega_share_prover.add(omega_share_verifier);
    let ghost dx = difference(verifier_point.0, prover_point.0);
    proof {
        T::lemma_results_valid(omega_share_prover, omega_share_verifier);
        lemma_masked_difference(
            prover_point.0,
            verifier_point.0,
            a1,
            a2,
            b1,
            b2,
            prover.c1->0,
            verifier.c2->0,
        );
        assert(omega == a1.plus(a2).times(dx));
        assert(denominator_shared(*prover, *verifier, prover_point, verifier_point));
        if prover_point.0 == verifier_point.0 {
            lemma_equal_x_aborts(*prover, *verifier, prover_point, verifier_point);
        }
    }

    let varepsilon2_share_prover = prover.handshake6_varepsilon2_share_open();
    let varepsilon2_share_verifier = verifier.handshake6_varepsilon2_share_open();
    let varepsilon2 = varepsilon2_share_prover.add(varepsilon2_share_verifier);
    proof {
        T::lemma_results_valid(varepsilon2_share_prover, varepsilon2_share_verifier);
    }

    match prover.handshake6_set_eta(omega, varepsilon2) {
        Ok(_) => {},
        Err(e) => {
            return Err(e);
        },
    }
    match verifier.handshake6_set_eta(omega, varepsilon2) {
        Ok(_) => {},
        Err(e) => {
            return Err(e);
        },
    }
    let varepsilon3_share_prover = prover.handshake7_varepsilon3_share_open();
    let varepsilon3_share_verifier = verifier.handshake7_varepsilon3_share_open();
    let varepsilon3 = varepsilon3_share_prover.add(varepsilon3_share_verifier);
    proof {
        T::lemma_results_valid(varepsilon3_share_prover, varepsilon3_share_verifier);
    }

    prover.handshake7_set_z1(varepsilon3);
    verifier.handshake7_set_z2(varepsilon3);

    // Output
    let z1 = prover.handshake8_z1_open();
    let z2 = verifier.handshake8_z2_open();
    proof {
        lemma_shares_reconstruct(*prover, *verifier, prover_point, verifier_point);
    }

    Ok((z1, z2))
}

/// Whatever masks and shares the parties hold, once the rounds have left
/// their results in the two states and the masked denominator has an
/// inverse, the difference of the x-coordinates has one too, the shares of
/// the slope add up to the slope of the chord, and the last shares add up to
/// the x-coordinate of the sum of the two points.
pub proof fn lemma_shares_reconstruct<T: Field>(
    p: Prover<T>,
    v: Verifier<T>,
    prover_point: (T, T),
    verifier_point: (T, T),
)
    requires
        prover_point.0.valid(),
        prover_point.1.valid(),
        verifier_point.0.valid(),
        verifier_point.1.valid(),
        preprocessed(p, v),
        denominator_shared(p, v, prover_point, verifier_point),
        slope_and_sum_shared(p, v),
        is_inverse_of(inverse_of(opened_omega(p, v)), opened_omega(p, v)),
    ensures
        is_inverse_of(
            inverse_of(difference(verifier_point.0, prover_point.0)),
            difference(verifier_point.0, prover_point.0),
        ),
        p.eta_share->0.plus(v.eta_share->0) == chord_slope(prover_point, verifier_point),
        p.z1->0.plus(v.z2->0) == chord_sum_x(prover_point, verifier_point),
{
    let a1 = p.a1->0;
    let a2 = v.a2->0;
    let dx = difference(verifier_point.0, prover_point.0);
    let dy = difference(verifier_point.1, prover_point.1);
    let omega_inv = inverse_of(opened_omega(p, v));
    let e2 = opened_varepsilon2(p, v);
    let n1 = e2.times(a1).plus(p.c1_prime->0);
    let n2 = e2.times(a2).plus(v.c2_prime->0);
    lemma_masked_difference(
        prover_point.1,
        verifier_point.1,
        a1,
        a2,
        p.b1_prime->0,
        v.b2_prime->0,
        p.c1_prime->0,
        v.c2_prime->0,
    );
    assert(n1.plus(n2) == a1.plus(a2).times(dy));
    T::lemma_times_distributes(omega_inv, n1, n2);
    lemma_opened_slope(a1.plus(a2), dx, dy, omega_inv);
    lemma_final_shares(
        p.eta_share->0,
        v.eta_share->0,
        p.r1->0,
        v.r2->0,
        p.r_squared_share->0,
        v.r_squared_share->0,
        prover_point.0,
        verifier_point.0,
    );
}

/// Two points with the same x-coordinate make the opened denominator zero,
/// whatever masks and shares the parties hold: the run cannot go on.
pub proof fn lemma_equal_x_aborts<T: Field>(
    p: Prover<T>,
    v: Verifier<T>,
    prover_point: (T, T),
    verifier_point: (T, T),
)
    requires
        prover_point.0 == verifier_point.0,
        denominator_shared(p, v, prover_point, verifier_point),
    ensures
        opened_omega(p, v) == T::zero_elem(),
{
    lemma_equal_x_is_degenerate(p.a1->0.plus(v.a2->0), prover_point.0);
}

/// Two runs on the same points, each with its own masks and its own shares
/// from its own batch, put together the same x-coordinate: the shares
/// differ, their sums agree.
pub proof fn lemma_runs_agree<T: Field>(
    prover_point: (T, T),
    verifier_point: (T, T),
    first_p: Prover<T>,
    first_v: Verifier<T>,
    second_p: Prover<T>,
    second_v: Verifier<T>,
)
    requires
        prover_point.0.valid(),
        prover_point.1.valid(),
        verifier_point.0.valid(),
        verifier_point.1.valid(),
        preprocessed(first_p, first_v),
        denominator_shared(first_p, first_v, prover_point, verifier_point),
        slope_and_sum_shared(first_p, first_v),
        is_inverse_of(inverse_of(opened_omega(first_p, first_v)), opened_omega(first_p, first_v)),
        preprocessed(second_p, second_v),
        denominator_shared(second_p, second_v, prover_point, verifier_point),
        slope_and_sum_shared(second_p, second_v),
        is_inverse_of(
            inverse_of(opened_omega(second_p, second_v)),
            opened_omega(second_p, second_v),
        ),
    ensures
        first_p.z1->0.plus(first_v.z2->0) == second_p.z1->0.plus(second_v.z2->0),
{
    lemma_shares_reconstruct(first_p, first_v, prover_point, verifier_point);
    lemma_shares_reconstruct(second_p, second_v, prover_point, verifier_point);
}

} // verus!
