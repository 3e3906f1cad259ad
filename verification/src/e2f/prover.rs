//! The party whose point is subtracted: it plays the sender of the oblivious
//! linear evaluation and adds the square of the opened slope to its share.

use super::{filled, point_filled, E2fError};
use crate::algebra::lemma_inverse_is_unique;
use crate::field::{difference, inverse_of, is_inverse_of, square, two_elem, Field, Ring};
use crate::func::ole::{Ole, OleError};
use crate::func::Role;
use vstd::prelude::*;

verus! {

/// The prover's state. Each phase reads slots that earlier phases have
/// filled and fills its own, which are empty until then: no slot is written
/// twice.
#[derive(Debug)]
pub struct Prover<T: Field> {
    // Preprocess 1
    pub a1: Option<T>,
    pub b1: Option<T>,
    pub b1_prime: Option<T>,
    pub r1: Option<T>,
    // Preprocess 2
    pub a1_b2_share: Option<T>,
    pub a2_b1_share: Option<T>,
    pub a1_b2_prime_share: Option<T>,
    pub a2_b1_prime_share: Option<T>,
    pub r1_r2_share: Option<T>,
    // Preprocess 3
    pub c1: Option<T>,
    pub c1_prime: Option<T>,
    // Preprocess 4
    pub r_squared_share: Option<T>,
    // Handshake 5
    pub ec_point: Option<(T, T)>,
    pub omega_share: Option<T>,
    // Handshake 6
    pub eta_share: Option<T>,
    // Handshake 7
    pub z1: Option<T>,
}

impl<T: Field> Default for Prover<T> {
    fn default() -> (r: Self)
        ensures
            r == Self::empty(),
    {
        Self {
            a1: None,
            b1: None,
            b1_prime: None,
            r1: None,
            a1_b2_share: None,
            a2_b1_share: None,
            a1_b2_prime_share: None,
            a2_b1_prime_share: None,
            r1_r2_share: None,
            c1: None,
            c1_prime: None,
            r_squared_share: None,
            ec_point: None,
            omega_share: None,
            eta_share: None,
            z1: None,
        }
    }
}

impl<T: Field> Prover<T> {
    /// The state with no slot filled.
    pub open spec fn empty() -> Self {
        Prover {
            a1: None,
            b1: None,
            b1_prime: None,
            r1: None,
            a1_b2_share: None,
            a2_b1_share: None,
            a1_b2_prime_share: None,
            a2_b1_prime_share: None,
            r1_r2_share: None,
            c1: None,
            c1_prime: None,
            r_squared_share: None,
            ec_point: None,
            omega_share: None,
            eta_share: None,
            z1: None,
        }
    }

    /// The vector that the prover gives to the batch.
    pub open spec fn ole_vector(&self) -> Seq<T> {
        seq![self.a1->0, self.b1->0, self.a1->0, self.b1_prime->0, self.r1->0]
    }

    /// Draws the three masks of the two multiplication triples and the mask
    /// of the slope.
    pub fn preprocess1(&mut self)
        requires
            old(self).a1 is None,
            old(self).b1 is None,
            old(self).b1_prime is None,
            old(self).r1 is None,
        ensures
            filled(final(self).a1),
            filled(final(self).b1),
            filled(final(self).b1_prime),
            filled(final(self).r1),
            *final(self) == (Prover {
                a1: final(self).a1,
                b1: final(self).b1,
                b1_prime: final(self).b1_prime,
                r1: final(self).r1,
                ..*old(self)
            }),
    {
        self.a1 = Some(T::rand());
        self.b1 = Some(T::rand());
        self.b1_prime = Some(T::rand());
        self.r1 = Some(T::rand());
    }

    /// Gives `(a1, b1, a1, b1', r1)` to the batch as the sender's vector.
    pub fn preprocess2_ole_input(&mut self, ole: &mut Ole<T>)
        requires
            filled(old(self).a1),
            filled(old(self).b1),
            filled(old(self).b1_prime),
            filled(old(self).r1),
        ensures
            *final(self) == *old(self),
            final(ole).sender_input() == Some(old(self).ole_vector()),
            final(ole).receiver_input() == old(ole).receiver_input(),
            final(ole).kept() == old(ole).kept(),
    {
        let a1 = self.a1.unwrap();
        let b1 = self.b1.unwrap();
        let b1_prime = self.b1_prime.unwrap();
        let r1 = self.r1.unwrap();

        let mut input: Vec<T> = Vec::new();
        input.push(a1);
        input.push(b1);
        input.push(a1);
        input.push(b1_prime);
        input.push(r1);
        assert(input@ =~= self.ole_vector());
        ole.input(Role::Sender, input);
    }

    /// Takes the prover's five shares out of the batch.
    pub fn preprocess2_ole_output(&mut self, ole: &mut Ole<T>) -> (res: Result<(), OleError>)
        requires
            old(self).a1_b2_share is None,
            old(self).a2_b1_share is None,
            old(self).a1_b2_prime_share is None,
            old(self).a2_b1_prime_share is None,
            old(self).r1_r2_share is None,
            old(ole).output_len() matches Some(n) ==> n >= 5,
        ensures
            match res {
                Ok(_) => exists|out: Vec<T>|
                    {
                        &&& #[trigger] old(ole).output_step(Role::Sender, final(ole), Ok(out))
                        &&& out.len() >= 5
                        &&& *final(self) == (Prover {
                            a1_b2_share: Some(out[0]),
                            a2_b1_share: Some(out[1]),
                            a1_b2_prime_share: Some(out[2]),
                            a2_b1_prime_share: Some(out[3]),
                            r1_r2_share: Some(out[4]),
                            ..*old(self)
                        })
                    },
                Err(e) => {
                    &&& old(ole).output_step(Role::Sender, final(ole), Err(e))
                    &&& *final(self) == *old(self)
                },
            },
            res is Ok ==> {
                &&& filled(final(self).a1_b2_share)
                &&& filled(final(self).a2_b1_share)
                &&& filled(final(self).a1_b2_prime_share)
                &&& filled(final(self).a2_b1_prime_share)
                &&& filled(final(self).r1_r2_share)
            },
    {
        match ole.output(Role::Sender) {
            Ok(output) => {
                self.a1_b2_share = Some(output[0]);
                self.a2_b1_share = Some(output[1]);
                self.a1_b2_prime_share = Some(output[2]);
                self.a2_b1_prime_share = Some(output[3]);
                self.r1_r2_share = Some(output[4]);
                Ok(())
            },
            Err(e) => Err(e),
        }
    }

    /// The prover's shares of the two triples' products:
    /// `c1 = a1 * b1 + a1_b2_share + a2_b1_share`, and the same with the
    /// primed masks.
    pub fn preprocess3(&mut self)
        requires
            old(self).c1 is None,
            old(self).c1_prime is None,
            filled(old(self).a1),
            filled(old(self).b1),
            filled(old(self).b1_prime),
            filled(old(self).a1_b2_share),
            filled(old(self).a2_b1_share),
            filled(old(self).a1_b2_prime_share),
            filled(old(self).a2_b1_prime_share),
        ensures
            filled(final(self).c1),
            filled(final(self).c1_prime),
            *final(self) == (Prover {
                c1: Some(
                    old(self).a1->0.times(old(self).b1->0).plus(old(self).a1_b2_share->0).plus(
                        old(self).a2_b1_share->0,
                    ),
                ),
                c1_prime: Some(
                    old(self).a1->0.times(old(self).b1_prime->0).plus(
                        old(self).a1_b2_prime_share->0,
                    ).plus(old(self).a2_b1_prime_share->0),
                ),
                ..*old(self)
            }),
    {
        let a1_b1_share = self.a1.unwrap().mul(self.b1.unwrap());
        let a1_b2_share = self.a1_b2_share.unwrap();
        let a2_b1_share = self.a2_b1_share.unwrap();
        proof {
            T::lemma_results_valid(self.a1->0, self.b1->0);
            T::lemma_results_valid(a1_b1_share, a1_b2_share);
            T::lemma_results_valid(a1_b1_share.plus(a1_b2_share), a2_b1_share);
        }
        self.c1 = Some(a1_b1_share.add(a1_b2_share).add(a2_b1_share));

        let a1_b1_prime_share = self.a1.unwrap().mul(self.b1_prime.unwrap());
        let a1_b2_prime_share = self.a1_b2_prime_share.unwrap();
        let a2_b1_prime_share = self.a2_b1_prime_share.unwrap();
        proof {
            T::lemma_results_valid(self.a1->0, self.b1_prime->0);
            T::lemma_results_valid(a1_b1_prime_share, a1_b2_prime_share);
            T::lemma_results_valid(a1_b1_prime_share.plus(a1_b2_prime_share), a2_b1_prime_share);
        }
        self.c1_prime = Some(a1_b1_prime_share.add(a1_b2_prime_share).add(a2_b1_prime_share));
    }

    /// The prover's share of the square of the slope's mask:
    /// `r1 * r1 + 2 * r1_r2_share`.
    pub fn preprocess4(&mut self)
        requires
            old(self).r_squared_share is None,
            filled(old(self).r1),
            filled(old(self).r1_r2_share),
        ensures
            filled(final(self).r_squared_share),
            *final(self) == (Prover {
                r_squared_share: Some(
                    square(old(self).r1->0).plus(two_elem::<T>().times(old(self).r1_r2_share->0)),
                ),
                ..*old(self)
            }),
    {
        let r1_squared = self.r1.unwrap().mul(self.r1.unwrap());
        proof {
            T::lemma_results_valid(T::one_elem(), T::one_elem());
        }
        let two = T::one().add(T::one());
        let r1_r2_share = self.r1_r2_share.unwrap();
        proof {
            T::lemma_results_valid(self.r1->0, self.r1->0);
            T::lemma_results_valid(two, r1_r2_share);
            T::lemma_results_valid(r1_squared, two.times(r1_r2_share));
        }
        self.r_squared_share = Some(r1_squared.add(two.mul(r1_r2_share)));
    }

    /// Records the prover's point.
    pub fn handshake5_input_ec(&mut self, ec_point: (T, T))
        requires
            old(self).ec_point is None,
        ensures
            *final(self) == (Prover { ec_point: Some(ec_point), ..*old(self) }),
    {
        self.ec_point = Some(ec_point);
    }

    /// The prover's share of the first opened value: `-x1 - b1`.
    pub fn handshake5_varepsilon1_share_open(&self) -> (share: T)
        requires
            point_filled(self.ec_point),
            filled(self.b1),
        ensures
            share == (self.ec_point->0).0.opposite().plus(self.b1->0.opposite()),
            share.valid(),
    {
        let x1 = self.ec_point.unwrap().0;
        let b1 = self.b1.unwrap();
        proof {
            T::lemma_results_valid(x1, x1);
            T::lemma_results_valid(b1, b1);
            T::lemma_results_valid(x1.opposite(), b1.opposite());
        }
        x1.neg().add(b1.neg())
    }

    /// The prover's share of the masked denominator:
    /// `varepsilon1 * a1 + c1`.
    pub fn handshake5_set_omega(&mut self, varepsilon1: T)
        requires
            old(self).omega_share is None,
            varepsilon1.valid(),
            filled(old(self).a1),
            filled(old(self).c1),
        ensures
            filled(final(self).omega_share),
            *final(self) == (Prover {
                omega_share: Some(varepsilon1.times(old(self).a1->0).plus(old(self).c1->0)),
                ..*old(self)
            }),
    {
        let a1 = self.a1.unwrap();
        let c1 = self.c1.unwrap();
        proof {
            T::lemma_results_valid(varepsilon1, a1);
            T::lemma_results_valid(varepsilon1.times(a1), c1);
        }
        self.omega_share = Some(varepsilon1.mul(a1).add(c1));
    }

    /// The prover's share of the masked denominator.
    pub fn handshake6_omega_share_open(&self) -> (share: T)
        requires
            self.omega_share is Some,
        ensures
            share == self.omega_share->0,
    {
        self.omega_share.unwrap()
    }

    /// The prover's share of the second opened value: `-y1 - b1'`.
    pub fn handshake6_varepsilon2_share_open(&self) -> (share: T)
        requires
            point_filled(self.ec_point),
            filled(self.b1_prime),
        ensures
            share == (self.ec_point->0).1.opposite().plus(self.b1_prime->0.opposite()),
            share.valid(),
    {
        let y1 = self.ec_point.unwrap().1;
        let b1_prime = self.b1_prime.unwrap();
        proof {
            T::lemma_results_valid(y1, y1);
            T::lemma_results_valid(b1_prime, b1_prime);
            T::lemma_results_valid(y1.opposite(), b1_prime.opposite());
        }
        y1.neg().add(b1_prime.neg())
    }

    /// The prover's share of the slope:
    /// `omega^-1 * (varepsilon2 * a1 + c1')`. A masked denominator that is
    /// zero has no inverse: the run ends there, whatever the state holds, and
    /// the state stays as it is.
    pub fn handshake6_set_eta(&mut self, omega: T, varepsilon2: T) -> (res: Result<(), E2fError>)
        requires
            omega.valid(),
            omega != T::zero_elem() ==> {
                &&& old(self).eta_share is None
                &&& varepsilon2.valid()
                &&& filled(old(self).a1)
                &&& filled(old(self).c1_prime)
            },
        ensures
            res is Err <==> omega == T::zero_elem(),
            match res {
                Ok(_) => {
                    &&& omega != T::zero_elem()
                    &&& is_inverse_of(inverse_of(omega), omega)
                    &&& filled(final(self).eta_share)
                    &&& *final(self) == (Prover {
                        eta_share: Some(
                            inverse_of(omega).times(
                                varepsilon2.times(old(self).a1->0).plus(old(self).c1_prime->0),
                            ),
                        ),
                        ..*old(self)
                    })
                },
                Err(e) => {
                    &&& e == E2fError::DegenerateInput
                    &&& omega == T::zero_elem()
                    &&& *final(self) == *old(self)
                },
            },
    {
        if omega.is_zero() {
            return Err(E2fError::DegenerateInput);
        }
        let omega_inv = omega.inverse();
        let a1 = self.a1.unwrap();
        let c1_prime = self.c1_prime.unwrap();
        proof {
            assert(is_inverse_of(omega_inv, omega));
            lemma_inverse_is_unique(omega, omega_inv, inverse_of(omega));
            T::lemma_results_valid(varepsilon2, a1);
            T::lemma_results_valid(varepsilon2.times(a1), c1_prime);
            T::lemma_results_valid(omega_inv, varepsilon2.times(a1).plus(c1_prime));
        }
        self.eta_share = Some(omega_inv.mul(varepsilon2.mul(a1).add(c1_prime)));
        Ok(())
    }

    /// The prover's share of the third opened value: `eta_share - r1`.
    pub fn handshake7_varepsilon3_share_open(&self) -> (share: T)
        requires
            filled(self.eta_share),
            filled(self.r1),
        ensures
            share == difference(self.eta_share->0, self.r1->0),
            share.valid(),
    {
        let r1 = self.r1.unwrap();
        proof {
            T::lemma_results_valid(r1, r1);
            T::lemma_results_valid(self.eta_share->0, r1.opposite());
        }
        self.eta_share.unwrap().add(r1.neg())
    }

    /// The prover's share of the sum's x-coordinate:
    /// `varepsilon3^2 + 2 * varepsilon3 * r1 + r_squared_share - x1`.
    pub fn handshake7_set_z1(&mut self, varepsilon3: T)
        requires
            old(self).z1 is None,
            varepsilon3.valid(),
            filled(old(self).r1),
            filled(old(self).r_squared_share),
            point_filled(old(self).ec_point),
        ensures
            filled(final(self).z1),
            *final(self) == (Prover {
                z1: Some(
                    square(varepsilon3).plus(
                        two_elem::<T>().times(varepsilon3).times(old(self).r1->0),
                    ).plus(old(self).r_squared_share->0).plus(
                        (old(self).ec_point->0).0.opposite(),
                    ),
                ),
                ..*old(self)
            }),
    {
        proof {
            T::lemma_results_valid(T::one_elem(), T::one_elem());
        }
        let two = T::one().add(T::one());
        let r1 = self.r1.unwrap();
        let r_squared_share = self.r_squared_share.unwrap();
        let x1 = self.ec_point.unwrap().0;
        proof {
            T::lemma_results_valid(varepsilon3, varepsilon3);
            T::lemma_results_valid(two, varepsilon3);
            T::lemma_results_valid(two.times(varepsilon3), r1);
            T::lemma_results_valid(square(varepsilon3), two.times(varepsilon3).times(r1));
            T::lemma_results_valid(
                square(varepsilon3).plus(two.times(varepsilon3).times(r1)),
                r_squared_share,
            );
            T::lemma_results_valid(x1, x1);
            T::lemma_results_valid(
                square(varepsilon3).plus(two.times(varepsilon3).times(r1)).plus(r_squared_share),
                x1.opposite(),
            );
        }
        self.z1 = Some(
            varepsilon3.mul(varepsilon3).add(two.mul(varepsilon3).mul(r1)).add(r_squared_share).add(
                x1.neg(),
            ),
        );
    }

    /// The prover's share of the sum's x-coordinate.
    pub fn handshake8_z1_open(&self) -> (share: T)
        requires
            self.z1 is Some,
        ensures
            share == self.z1->0,
    {
        self.z1.unwrap()
    }
}

} // verus!
