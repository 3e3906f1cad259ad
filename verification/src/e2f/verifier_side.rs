//! The party whose point is added: it plays the receiver of the oblivious
//! linear evaluation.

use super::{filled, point_filled, E2fError};
use crate::algebra::lemma_inverse_is_unique;
use crate::field::{difference, inverse_of, is_inverse_of, square, two_elem, Field, Ring};
use crate::func::ole::{Ole, OleError};
use crate::func::Role;
use vstd::prelude::*;

verus! {

/// The verifier's state. Each phase reads slots that earlier phases have
/// filled and fills its own, which are empty until then: no slot is written
/// twice.
#[derive(Debug)]
pub struct Verifier<T: Field> {
    // Preprocess 1
    pub a2: Option<T>,
    pub b2: Option<T>,
    pub b2_prime: Option<T>,
    pub r2: Option<T>,
    // Preprocess 2
    pub a1_b2_share: Option<T>,
    pub a2_b1_share: Option<T>,
    pub a1_b2_prime_share: Option<T>,
    pub a2_b1_prime_share: Option<T>,
    pub r1_r2_share: Option<T>,
    // Preprocess 3
    pub c2: Option<T>,
    pub c2_prime: Option<T>,
    // Preprocess 4
    pub r_squared_share: Option<T>,
    // Handshake 5
    pub ec_point: Option<(T, T)>,
    pub omega_share: Option<T>,
    // Handshake 6
    pub eta_share: Option<T>,
    // Handshake 7
    pub z2: Option<T>,
}

impl<T: Field> Default for Verifier<T> {
    fn default() -> (r: Self)
        ensures
            r == Self::empty(),
    {
        Self {
            a2: None,
            b2: None,
            b2_prime: None,
            r2: None,
            a1_b2_share: None,
            a2_b1_share: None,
            a1_b2_prime_share: None,
            a2_b1_prime_share: None,
            r1_r2_share: None,
            c2: None,
            c2_prime: None,
            r_squared_share: None,
            ec_point: None,
            omega_share: None,
            eta_share: None,
            z2: None,
        }
    }
}

impl<T: Field> Verifier<T> {
    /// The state with no slot filled.
    pub open spec fn empty() -> Self {
        Verifier {
            a2: None,
            b2: None,
            b2_prime: None,
            r2: None,
            a1_b2_share: None,
            a2_b1_share: None,
            a1_b2_prime_share: None,
            a2_b1_prime_share: None,
            r1_r2_share: None,
            c2: None,
            c2_prime: None,
            r_squared_share: None,
            ec_point: None,
            omega_share: None,
            eta_share: None,
            z2: None,
        }
    }

    /// The vector that the verifier gives to the batch.
    pub open spec fn ole_vector(&self) -> Seq<T> {
        seq![self.b2->0, self.a2->0, self.b2_prime->0, self.a2->0, self.r2->0]
    }

    /// Draws the three masks of the two multiplication triples and the mask
    /// of the slope.
    pub fn preprocess1(&mut self)
        requires
            old(self).a2 is None,
            old(self).b2 is None,
            old(self).b2_prime is None,
            old(self).r2 is None,
        ensures
            filled(final(self).a2),
            filled(final(self).b2),
            filled(final(self).b2_prime),
            filled(final(self).r2),
            *final(self) == (Verifier {
                a2: final(self).a2,
                b2: final(self).b2,
                b2_prime: final(self).b2_prime,
                r2: final(self).r2,
                ..*old(self)
            }),
    {
        self.a2 = Some(T::rand());
        self.b2 = Some(T::rand());
        self.b2_prime = Some(T::rand());
        self.r2 = Some(T::rand());
    }

    /// Gives `(b2, a2, b2', a2, r2)` to the batch as the receiver's vector.
    pub fn preprocess2_ole_input(&mut self, ole: &mut Ole<T>)
        requires
            filled(old(self).a2),
            filled(old(self).b2),
            filled(old(self).b2_prime),
            filled(old(self).r2),
        ensures
            *final(self) == *old(self),
            final(ole).receiver_input() == Some(old(self).ole_vector()),
            final(ole).sender_input() == old(ole).sender_input(),
            final(ole).kept() == old(ole).kept(),
    {
        let a2 = self.a2.unwrap();
        let b2 = self.b2.unwrap();
        let b2_prime = self.b2_prime.unwrap();
        let r2 = self.r2.unwrap();

        let mut input: Vec<T> = Vec::new();
        input.push(b2);
        input.push(a2);
        input.push(b2_prime);
        input.push(a2);
        input.push(r2);
        assert(input@ =~= self.ole_vector());
        ole.input(Role::Receiver, input);
    }

    /// Takes the verifier's five shares out of the batch.
    pub fn preprocess2_ole_output(&mut self, ole: &mut Ole<T>) -> (res: Result<(), OleError>)
        requires
            old(self).a1_b2_share is None,
            old(self).a2_b1_share is None,
            old(self).a1_b2_prime_share is None,
            old(self).a2_b1_prime_share is None,
            old(self).r1_r2_share is None,
            old(ole).output_len() matches Some(n) ==> n >= 5,
        ensures
            match res {
                Ok(_) => exists|out: Vec<T>|
                    {
                        &&& #[trigger] old(ole).output_step(Role::Receiver, final(ole), Ok(out))
                        &&& out.len() >= 5
                        &&& *final(self) == (Verifier {
                            a1_b2_share: Some(out[0]),
                            a2_b1_share: Some(out[1]),
                            a1_b2_prime_share: Some(out[2]),
                            a2_b1_prime_share: Some(out[3]),
                            r1_r2_share: Some(out[4]),
                            ..*old(self)
                        })
                    },
                Err(e) => {
                    &&& old(ole).output_step(Role::Receiver, final(ole), Err(e))
                    &&& *final(self) == *old(self)
                },
            },
            res is Ok ==> {
                &&& filled(final(self).a1_b2_share)
                &&& filled(final(self).a2_b1_share)
                &&& filled(final(self).a1_b2_prime_share)
                &&& filled(final(self).a2_b1_prime_share)
                &&& filled(final(self).r1_r2_share)
            },
    {
        match ole.output(Role::Receiver) {
            Ok(output) => {
                self.a1_b2_share = Some(output[0]);
                self.a2_b1_share = Some(output[1]);
                self.a1_b2_prime_share = Some(output[2]);
                self.a2_b1_prime_share = Some(output[3]);
                self.r1_r2_share = Some(output[4]);
                Ok(())
            },
            Err(e) => Err(e),
        }
    }

    /// The verifier's shares of the two triples' products:
    /// `c2 = a2 * b2 + a1_b2_share + a2_b1_share`, and the same with the
    /// primed masks.
    pub fn preprocess3(&mut self)
        requires
            old(self).c2 is None,
            old(self).c2_prime is None,
            filled(old(self).a2),
            filled(old(self).b2),
            filled(old(self).b2_prime),
            filled(old(self).a1_b2_share),
            filled(old(self).a2_b1_share),
            filled(old(self).a1_b2_prime_share),
            filled(old(self).a2_b1_prime_share),
        ensures
            filled(final(self).c2),
            filled(final(self).c2_prime),
            *final(self) == (Verifier {
                c2: Some(
                    old(self).a2->0.times(old(self).b2->0).plus(old(self).a1_b2_share->0).plus(
                        old(self).a2_b1_share->0,
                    ),
                ),
                c2_prime: Some(
                    old(self).a2->0.times(old(self).b2_prime->0).plus(
                        old(self).a1_b2_prime_share->0,
                    ).plus(old(self).a2_b1_prime_share->0),
                ),
                ..*old(self)
            }),
    {
        let a2_b2_share = self.a2.unwrap().mul(self.b2.unwrap());
        let a1_b2_share = self.a1_b2_share.unwrap();
        let a2_b1_share = self.a2_b1_share.unwrap();
        proof {
            T::lemma_results_valid(self.a2->0, self.b2->0);
            T::lemma_results_valid(a2_b2_share, a1_b2_share);
            T::lemma_results_valid(a2_b2_share.plus(a1_b2_share), a2_b1_share);
        }
        self.c2 = Some(a2_b2_share.add(a1_b2_share).add(a2_b1_share));

        let a2_b2_prime_share = self.a2.unwrap().mul(self.b2_prime.unwrap());
        let a1_b2_prime_share = self.a1_b2_prime_share.unwrap();
        let a2_b1_prime_share = self.a2_b1_prime_share.unwrap();
        proof {
            T::lemma_results_valid(self.a2->0, self.b2_prime->0);
            T::lemma_results_valid(a2_b2_prime_share, a1_b2_prime_share);
            T::lemma_results_valid(a2_b2_prime_share.plus(a1_b2_prime_share), a2_b1_prime_share);
        }
        self.c2_prime = Some(a2_b2_prime_share.add(a1_b2_prime_share).add(a2_b1_prime_share));
    }

    /// The verifier's share of the square of the slope's mask:
    /// `r2 * r2 + 2 * r1_r2_share`.
    pub fn preprocess4(&mut self)
        requires
            old(self).r_squared_share is None,
            filled(old(self).r2),
            filled(old(self).r1_r2_share),
        ensures
            filled(final(self).r_squared_share),
            *final(self) == (Verifier {
                r_squared_share: Some(
                    square(old(self).r2->0).plus(two_elem::<T>().times(old(self).r1_r2_share->0)),
                ),
                ..*old(self)
            }),
    {
        let r2_squared = self.r2.unwrap().mul(self.r2.unwrap());
        proof {
            T::lemma_results_valid(T::one_elem(), T::one_elem());
        }
        let two = T::one().add(T::one());
        let r1_r2_share = self.r1_r2_share.unwrap();
        proof {
            T::lemma_results_valid(self.r2->0, self.r2->0);
            T::lemma_results_valid(two, r1_r2_share);
            T::lemma_results_valid(r2_squared, two.times(r1_r2_share));
        }
        self.r_squared_share = Some(r2_squared.add(two.mul(r1_r2_share)));
    }

    /// Records the verifier's point.
    pub fn handshake5_input_ec(&mut self, ec_point: (T, T))
        requires
            old(self).ec_point is None,
        ensures
            *final(self) == (Verifier { ec_point: Some(ec_point), ..*old(self) }),
    {
        self.ec_point = Some(ec_point);
    }

    /// The verifier's share of the first opened value: `x2 - b2`.
    pub fn handshake5_varepsilon1_share_open(&self) -> (share: T)
        requires
            point_filled(self.ec_point),
            filled(self.b2),
        ensures
            share == difference((self.ec_point->0).0, self.b2->0),
            share.valid(),
    {
        let x2 = self.ec_point.unwrap().0;
        let b2 = self.b2.unwrap();
        proof {
            T::lemma_results_valid(b2, b2);
            T::lemma_results_valid(x2, b2.opposite());
        }
        x2.add(b2.neg())
    }

    /// The verifier's share of the masked denominator:
    /// `varepsilon1 * a2 + c2`.
    pub fn handshake5_set_omega(&mut self, varepsilon1: T)
        requires
            old(self).omega_share is None,
            varepsilon1.valid(),
            filled(old(self).a2),
            filled(old(self).c2),
        ensures
            filled(final(self).omega_share),
            *final(self) == (Verifier {
                omega_share: Some(varepsilon1.times(old(self).a2->0).plus(old(self).c2->0)),
                ..*old(self)
            }),
    {
        let a2 = self.a2.unwrap();
        let c2 = self.c2.unwrap();
        proof {
            T::lemma_results_valid(varepsilon1, a2);
            T::lemma_results_valid(varepsilon1.times(a2), c2);
        }
        self.omega_share = Some(varepsilon1.mul(a2).add(c2));
    }

    /// The verifier's share of the masked denominator.
    pub fn handshake6_omega_share_open(&self) -> (share: T)
        requires
            self.omega_share is Some,
        ensures
            share == self.omega_share->0,
    {
        self.omega_share.unwrap()
    }

    /// The verifier's share of the second opened value: `y2 - b2'`.
    pub fn handshake6_varepsilon2_share_open(&self) -> (share: T)
        requires
            point_filled(self.ec_point),
            filled(self.b2_prime),
        ensures
            share == difference((self.ec_point->0).1, self.b2_prime->0),
            share.valid(),
    {
        let y2 = self.ec_point.unwrap().1;
        let b2_prime = self.b2_prime.unwrap();
        proof {
            T::lemma_results_valid(b2_prime, b2_prime);
            T::lemma_results_valid(y2, b2_prime.opposite());
        }
        y2.add(b2_prime.neg())
    }

    /// The verifier's share of the slope:
    /// `omega^-1 * (varepsilon2 * a2 + c2')`. A masked denominator that is
    /// zero has no inverse: the run ends there, whatever the state holds, and
    /// the state stays as it is.
    pub fn handshake6_set_eta(&mut self, omega: T, varepsilon2: T) -> (res: Result<(), E2fError>)
        requires
            omega.valid(),
            omega != T::zero_elem() ==> {
                &&& old(self).eta_share is None
                &&& varepsilon2.valid()
                &&& filled(old(self).a2)
                &&& filled(old(self).c2_prime)
            },
        ensures
            res is Err <==> omega == T::zero_elem(),
            match res {
                Ok(_) => {
                    &&& omega != T::zero_elem()
                    &&& is_inverse_of(inverse_of(omega), omega)
                    &&& filled(final(self).eta_share)
                    &&& *final(self) == (Verifier {
                        eta_share: Some(
                            inverse_of(omega).times(
                                varepsilon2.times(old(self).a2->0).plus(old(self).c2_prime->0),
                            ),
                        ),
                        ..*old(self)
                    })
                },
                Err(e) => {
                    &&& e == E2fError::DegenerateInput
                    &&& omega == T::zero_elem()
                    &&& *final(self) == *old(self)
                },
            },
    {
        if omega.is_zero() {
            return Err(E2fError::DegenerateInput);
        }
        let omega_inv = omega.inverse();
        let a2 = self.a2.unwrap();
        let c2_prime = self.c2_prime.unwrap();
        proof {
            assert(is_inverse_of(omega_inv, omega));
            lemma_inverse_is_unique(omega, omega_inv, inverse_of(omega));
            T::lemma_results_valid(varepsilon2, a2);
            T::lemma_results_valid(varepsilon2.times(a2), c2_prime);
            T::lemma_results_valid(omega_inv, varepsilon2.times(a2).plus(c2_prime));
        }
        self.eta_share = Some(omega_inv.mul(varepsilon2.mul(a2).add(c2_prime)));
        Ok(())
    }

    /// The verifier's share of the third opened value: `eta_share - r2`.
    pub fn handshake7_varepsilon3_share_open(&self) -> (share: T)
        requires
            filled(self.eta_share),
            filled(self.r2),
        ensures
            share == difference(self.eta_share->0, self.r2->0),
            share.valid(),
    {
        let r2 = self.r2.unwrap();
        proof {
            T::lemma_results_valid(r2, r2);
            T::lemma_results_valid(self.eta_share->0, r2.opposite());
        }
        self.eta_share.unwrap().add(r2.neg())
    }

    /// The verifier's share of the sum's x-coordinate:
    /// `2 * varepsilon3 * r2 + r_squared_share - x2`. The square of the opened
    /// value is the prover's to add.
    pub fn handshake7_set_z2(&mut self, varepsilon3: T)
        requires
            old(self).z2 is None,
            varepsilon3.valid(),
            filled(old(self).r2),
            filled(old(self).r_squared_share),
            point_filled(old(self).ec_point),
        ensures
            filled(final(self).z2),
            *final(self) == (Verifier {
                z2: Some(
                    two_elem::<T>().times(varepsilon3).times(old(self).r2->0).plus(
                        old(self).r_squared_share->0,
                    ).plus((old(self).ec_point->0).0.opposite()),
                ),
                ..*old(self)
            }),
    {
        proof {
            T::lemma_results_valid(T::one_elem(), T::one_elem());
        }
        let two = T::one().add(T::one());
        let r2 = self.r2.unwrap();
        let r_squared_share = self.r_squared_share.unwrap();
        let x2 = self.ec_point.unwrap().0;
        proof {
            T::lemma_results_valid(two, varepsilon3);
            T::lemma_results_valid(two.times(varepsilon3), r2);
            T::lemma_results_valid(two.times(varepsilon3).times(r2), r_squared_share);
            T::lemma_results_valid(x2, x2);
            T::lemma_results_valid(
                two.times(varepsilon3).times(r2).plus(r_squared_share),
                x2.opposite(),
            );
        }
        self.z2 = Some(two.mul(varepsilon3).mul(r2).add(r_squared_share).add(x2.neg()));
    }

    /// The verifier's share of the sum's x-coordinate.
    pub fn handshake8_z2_open(&self) -> (share: T)
        requires
            self.z2 is Some,
        ensures
            share == self.z2->0,
    {
        self.z2.unwrap()
    }
}

} // verus!
