use p256::elliptic_curve::sec1::ToEncodedPoint;
use p256::{EncodedPoint, NonZeroScalar, PublicKey};
use rand::thread_rng;
use share_conversion::e2f::{e2f, E2fError, Prover, Verifier};
use share_conversion::field::{Field, Ring};
use share_conversion::p256::P256;

fn add_ec_points((x1, y1): (P256, P256), (x2, y2): (P256, P256)) -> (P256, P256) {
    let nominator = y2.add(y1.neg());
    let denominator = x2.add(x1.neg());

    let fraction = nominator.mul(denominator.inverse());
    let squared = fraction.mul(fraction);

    let x_r = squared.add(x1.neg()).add(x2.neg());
    let y_r = fraction.mul(x1.add(x_r.neg())).add(y1.neg());

    (x_r, y_r)
}

fn scalar_to_encoded_point(scalar: NonZeroScalar) -> EncodedPoint {
    PublicKey::from_secret_scalar(&scalar).to_encoded_point(false)
}

fn bytes_to_p256(mut bytes: [u8; 32]) -> P256 {
    // reverse to little endian
    bytes.reverse();
    let mut limbs = [0u64; 4];
    for (i, limb) in limbs.iter_mut().enumerate() {
        let mut chunk = [0u8; 8];
        chunk.copy_from_slice(&bytes[8 * i..8 * i + 8]);
        *limb = u64::from_le_bytes(chunk);
    }
    P256::from_limbs(limbs).unwrap()
}

fn point_to_p256(point: EncodedPoint) -> (P256, P256) {
    let x: [u8; 32] = (*point.x().unwrap()).into();
    let y: [u8; 32] = (*point.y().unwrap()).into();

    (bytes_to_p256(x), bytes_to_p256(y))
}

fn random_point() -> (P256, P256) {
    let mut rng = thread_rng();
    point_to_p256(scalar_to_encoded_point(NonZeroScalar::random(&mut rng)))
}

#[test]
fn test_e2f() {
    let mut rng = thread_rng();
    let prover_scalar = NonZeroScalar::random(&mut rng);
    let verifier_scalar = NonZeroScalar::random(&mut rng);

    let prover_ec = point_to_p256(scalar_to_encoded_point(prover_scalar));
    let mut prover = Prover::default();

    let verifier_ec = point_to_p256(scalar_to_encoded_point(verifier_scalar));
    let mut verifier = Verifier::default();

    let (z1, z2) = e2f(prover_ec, &mut prover, verifier_ec, &mut verifier).unwrap();

    let x_ec_expected = add_ec_points(prover_ec, verifier_ec);
    assert_eq!(z1.add(z2), x_ec_expected.0);
}

#[test]
fn test_sharing_sums() {
    let mut rng = thread_rng();
    let prover_scalar = NonZeroScalar::random(&mut rng);
    let verifier_scalar = NonZeroScalar::random(&mut rng);

    let prover_ec = point_to_p256(scalar_to_encoded_point(prover_scalar));
    let mut prover = Prover::default();

    let verifier_ec = point_to_p256(scalar_to_encoded_point(verifier_scalar));
    let mut verifier = Verifier::default();

    let _ = e2f(prover_ec, &mut prover, verifier_ec, &mut verifier);

    // Assertions

    // c
    let c = prover
        .a1
        .unwrap()
        .mul(prover.b1.unwrap())
        .add(prover.a1_b2_share.unwrap())
        .add(prover.a2_b1_share.unwrap())
        .add(verifier.a2_b1_share.unwrap())
        .add(verifier.a1_b2_share.unwrap())
        .add(verifier.a2.unwrap().mul(verifier.b2.unwrap()));
    assert_eq!(prover.c1.unwrap().add(verifier.c2.unwrap()), c);

    // c_prime
    let c_prime = prover
        .a1
        .unwrap()
        .mul(prover.b1_prime.unwrap())
        .add(prover.a1_b2_prime_share.unwrap())
        .add(prover.a2_b1_prime_share.unwrap())
        .add(verifier.a2_b1_prime_share.unwrap())
        .add(verifier.a1_b2_prime_share.unwrap())
        .add(verifier.a2.unwrap().mul(verifier.b2_prime.unwrap()));
    assert_eq!(
        prover.c1_prime.unwrap().add(verifier.c2_prime.unwrap()),
        c_prime
    );

    // r_squared
    let r_squared = prover
        .r1
        .unwrap()
        .mul(prover.r1.unwrap())
        .add(P256::new(2).mul(prover.r1_r2_share.unwrap().add(verifier.r1_r2_share.unwrap())))
        .add(verifier.r2.unwrap().mul(verifier.r2.unwrap()));
    assert_eq!(
        prover
            .r_squared_share
            .unwrap()
            .add(verifier.r_squared_share.unwrap()),
        r_squared
    );

    // omega
    let b = prover.b1.unwrap().add(verifier.b2.unwrap());
    let varepsilon1 = prover
        .ec_point
        .unwrap()
        .0
        .neg()
        .add(verifier.ec_point.unwrap().0)
        .add(b.neg());
    let omega = varepsilon1
        .mul(prover.a1.unwrap().add(verifier.a2.unwrap()))
        .add(prover.c1.unwrap())
        .add(verifier.c2.unwrap());
    assert_eq!(
        prover.omega_share.unwrap().add(verifier.omega_share.unwrap()),
        omega
    );

    // eta
    let b_prime = prover.b1_prime.unwrap().add(verifier.b2_prime.unwrap());
    let varepsilon2 = prover
        .ec_point
        .unwrap()
        .1
        .neg()
        .add(verifier.ec_point.unwrap().1)
        .add(b_prime.neg());
    let eta = prover
        .omega_share
        .unwrap()
        .add(verifier.omega_share.unwrap())
        .inverse()
        .mul(
            varepsilon2
                .mul(prover.a1.unwrap().add(verifier.a2.unwrap()))
                .add(prover.c1_prime.unwrap())
                .add(verifier.c2_prime.unwrap()),
        );
    assert_eq!(prover.eta_share.unwrap().add(verifier.eta_share.unwrap()), eta);

    // z
    let varepsilon3 = prover
        .eta_share
        .unwrap()
        .add(verifier.eta_share.unwrap())
        .add(prover.r1.unwrap().neg())
        .add(verifier.r2.unwrap().neg());
    let z = varepsilon3
        .mul(varepsilon3)
        .add(
            P256::new(2)
                .mul(varepsilon3)
                .mul(prover.r1.unwrap().add(verifier.r2.unwrap())),
        )
        .add(prover.r_squared_share.unwrap())
        .add(verifier.r_squared_share.unwrap())
        .add(prover.ec_point.unwrap().0.neg())
        .add(verifier.ec_point.unwrap().0.neg());
    assert_eq!(prover.z1.unwrap().add(verifier.z2.unwrap()), z);
}

#[test]
fn test_add_ec_points() {
    let mut rng = thread_rng();
    let scalar1 = p256::NonZeroScalar::random(&mut rng);
    let scalar2 = p256::NonZeroScalar::random(&mut rng);

    let pk1 = PublicKey::from_secret_scalar(&scalar1);
    let pk2 = PublicKey::from_secret_scalar(&scalar2);
    let pr1 = pk1.to_projective();
    let pr2 = pk2.to_projective();

    let ec_added_expected = point_to_p256((pr1 + pr2).to_affine().to_encoded_point(false));

    let ec1 = pr1.to_affine().to_encoded_point(false);
    let ec2 = pr2.to_affine().to_encoded_point(false);
    let ec_added = add_ec_points(point_to_p256(ec1), point_to_p256(ec2));

    assert_eq!(ec_added, ec_added_expected);
}

#[test]
fn e2f_matches_curve_addition() {
    for _ in 0..8 {
        let point_a = random_point();
        let point_b = random_point();
        let mut prover = Prover::default();
        let mut verifier = Verifier::default();
        let (z1, z2) = e2f(point_a, &mut prover, point_b, &mut verifier).unwrap();
        assert_eq!(prover.z1, Some(z1));
        assert_eq!(verifier.z2, Some(z2));
        assert_eq!(z1.add(z2), add_ec_points(point_a, point_b).0);
    }
}

#[test]
fn e2f_equal_x_coordinates_abort() {
    let point_a = random_point();
    // the same point
    let mut prover = Prover::default();
    let mut verifier = Verifier::default();
    assert_eq!(
        e2f(point_a, &mut prover, point_a, &mut verifier),
        Err(E2fError::DegenerateInput)
    );
    assert_eq!(
        prover.omega_share.unwrap().add(verifier.omega_share.unwrap()),
        P256::zero()
    );
    assert_eq!(prover.eta_share, None);
    assert_eq!(verifier.z2, None);

    // the opposite point: same x, other y
    let point_b = (point_a.0, point_a.1.neg());
    let mut prover = Prover::default();
    let mut verifier = Verifier::default();
    assert_eq!(
        e2f(point_a, &mut prover, point_b, &mut verifier),
        Err(E2fError::DegenerateInput)
    );
}

#[test]
fn e2f_fills_every_slot() {
    let point_a = random_point();
    let point_b = random_point();
    let mut prover = Prover::default();
    let mut verifier = Verifier::default();
    let (z1, z2) = e2f(point_a, &mut prover, point_b, &mut verifier).unwrap();
    assert_eq!(prover.ec_point, Some(point_a));
    assert_eq!(verifier.ec_point, Some(point_b));
    assert_eq!(prover.z1, Some(z1));
    assert_eq!(verifier.z2, Some(z2));
    for slot in [
        prover.a1,
        prover.b1,
        prover.b1_prime,
        prover.r1,
        prover.a1_b2_share,
        prover.a2_b1_share,
        prover.a1_b2_prime_share,
        prover.a2_b1_prime_share,
        prover.r1_r2_share,
        prover.c1,
        prover.c1_prime,
        prover.r_squared_share,
        prover.omega_share,
        prover.eta_share,
        prover.z1,
        verifier.a2,
        verifier.b2,
        verifier.b2_prime,
        verifier.r2,
        verifier.a1_b2_share,
        verifier.a2_b1_share,
        verifier.a1_b2_prime_share,
        verifier.a2_b1_prime_share,
        verifier.r1_r2_share,
        verifier.c2,
        verifier.c2_prime,
        verifier.r_squared_share,
        verifier.omega_share,
        verifier.eta_share,
        verifier.z2,
    ] {
        assert!(slot.is_some());
    }
    // the five pairs of shares that came out of the batch
    let (a1, b1, b1_prime, r1) = (
        prover.a1.unwrap(),
        prover.b1.unwrap(),
        prover.b1_prime.unwrap(),
        prover.r1.unwrap(),
    );
    let (a2, b2, b2_prime, r2) = (
        verifier.a2.unwrap(),
        verifier.b2.unwrap(),
        verifier.b2_prime.unwrap(),
        verifier.r2.unwrap(),
    );
    assert_eq!(
        prover.a1_b2_share.unwrap().add(verifier.a1_b2_share.unwrap()),
        a1.mul(b2)
    );
    assert_eq!(
        prover.a2_b1_share.unwrap().add(verifier.a2_b1_share.unwrap()),
        b1.mul(a2)
    );
    assert_eq!(
        prover
            .a1_b2_prime_share
            .unwrap()
            .add(verifier.a1_b2_prime_share.unwrap()),
        a1.mul(b2_prime)
    );
    assert_eq!(
        prover
            .a2_b1_prime_share
            .unwrap()
            .add(verifier.a2_b1_prime_share.unwrap()),
        b1_prime.mul(a2)
    );
    assert_eq!(
        prover.r1_r2_share.unwrap().add(verifier.r1_r2_share.unwrap()),
        r1.mul(r2)
    );
    // and on the abort: all but the slots of the last two rounds
    let mut prover = Prover::default();
    let mut verifier = Verifier::default();
    assert!(e2f(point_a, &mut prover, point_a, &mut verifier).is_err());
    assert!(prover.r1_r2_share.is_some() && verifier.a2_b1_prime_share.is_some());
    assert!(prover.c1_prime.is_some() && verifier.r_squared_share.is_some());
    assert!(prover.omega_share.is_some() && verifier.omega_share.is_some());
    assert_eq!((prover.eta_share, prover.z1), (None, None));
    assert_eq!((verifier.eta_share, verifier.z2), (None, None));
}

#[test]
fn zero_denominator_is_refused_in_any_state() {
    // nothing has run yet: the zero is seen before any slot is read
    let mut prover: Prover<P256> = Prover::default();
    let mut verifier: Verifier<P256> = Verifier::default();
    assert_eq!(
        prover.handshake6_set_eta(P256::zero(), P256::new(7)),
        Err(E2fError::DegenerateInput)
    );
    assert_eq!(
        verifier.handshake6_set_eta(P256::zero(), P256::new(7)),
        Err(E2fError::DegenerateInput)
    );
    assert_eq!(prover.a1, None);
    assert_eq!(prover.eta_share, None);
    assert_eq!(verifier.eta_share, None);

    // after a whole run: the slope stays as it was
    let point_a = random_point();
    let point_b = random_point();
    e2f(point_a, &mut prover, point_b, &mut verifier).unwrap();
    let (eta1, eta2) = (prover.eta_share, verifier.eta_share);
    let (z1, z2) = (prover.z1, verifier.z2);
    assert_eq!(
        prover.handshake6_set_eta(P256::zero(), P256::new(7)),
        Err(E2fError::DegenerateInput)
    );
    assert_eq!(
        verifier.handshake6_set_eta(P256::zero(), P256::new(7)),
        Err(E2fError::DegenerateInput)
    );
    assert_eq!((prover.eta_share, prover.z1), (eta1, z1));
    assert_eq!((verifier.eta_share, verifier.z2), (eta2, z2));
}

#[test]
fn e2f_two_runs_agree() {
    let point_a = random_point();
    let point_b = random_point();
    let mut prover = Prover::default();
    let mut verifier = Verifier::default();
    let (z1, z2) = e2f(point_a, &mut prover, point_b, &mut verifier).unwrap();
    let mut prover_again = Prover::default();
    let mut verifier_again = Verifier::default();
    let (w1, w2) = e2f(point_a, &mut prover_again, point_b, &mut verifier_again).unwrap();
    assert_eq!(z1.add(z2), w1.add(w2));
    assert_ne!(z1, w1);
    assert_ne!(z2, w2);
}

#[test]
fn e2f_over_small_values() {
    // The chord formula is all that the protocol computes: it holds for any
    // two pairs with different first coordinates, on a curve or not.
    let point_a = (P256::new(3), P256::new(10));
    let point_b = (P256::new(5), P256::new(4));
    let mut prover = Prover::default();
    let mut verifier = Verifier::default();
    let (z1, z2) = e2f(point_a, &mut prover, point_b, &mut verifier).unwrap();
    // slope = (4 - 10) / (5 - 3) = -3, so x = 9 - 3 - 5 = 1
    assert_eq!(z1.add(z2), P256::new(1));
}

#[test]
fn e2f_phases_by_hand() {
    let point_a = (P256::new(3), P256::new(10));
    let point_b = (P256::new(5), P256::new(4));
    let mut prover: Prover<P256> = Prover::default();
    let mut verifier: Verifier<P256> = Verifier::default();
    let mut ole = share_conversion::func::ole::Ole::default();

    prover.preprocess1();
    verifier.preprocess1();
    prover.preprocess2_ole_input(&mut ole);
    verifier.preprocess2_ole_input(&mut ole);
    prover.preprocess2_ole_output(&mut ole).unwrap();
    verifier.preprocess2_ole_output(&mut ole).unwrap();
    prover.preprocess3();
    verifier.preprocess3();
    prover.preprocess4();
    verifier.preprocess4();

    // each party's share of the first triple's product
    assert_eq!(
        prover.c1.unwrap(),
        prover
            .a1
            .unwrap()
            .mul(prover.b1.unwrap())
            .add(prover.a1_b2_share.unwrap())
            .add(prover.a2_b1_share.unwrap())
    );
    assert_eq!(
        verifier.c2_prime.unwrap(),
        verifier
            .a2
            .unwrap()
            .mul(verifier.b2_prime.unwrap())
            .add(verifier.a1_b2_prime_share.unwrap())
            .add(verifier.a2_b1_prime_share.unwrap())
    );
    // the cross terms are shared between the parties
    assert_eq!(
        prover.a1_b2_share.unwrap().add(verifier.a1_b2_share.unwrap()),
        prover.a1.unwrap().mul(verifier.b2.unwrap())
    );
    assert_eq!(
        prover.a2_b1_share.unwrap().add(verifier.a2_b1_share.unwrap()),
        verifier.a2.unwrap().mul(prover.b1.unwrap())
    );
    assert_eq!(
        prover.r1_r2_share.unwrap().add(verifier.r1_r2_share.unwrap()),
        prover.r1.unwrap().mul(verifier.r2.unwrap())
    );
    assert_eq!(
        prover.r_squared_share.unwrap(),
        prover
            .r1
            .unwrap()
            .mul(prover.r1.unwrap())
            .add(P256::new(2).mul(prover.r1_r2_share.unwrap()))
    );

    let a = prover.a1.unwrap().add(verifier.a2.unwrap());
    let b = prover.b1.unwrap().add(verifier.b2.unwrap());
    assert_eq!(prover.c1.unwrap().add(verifier.c2.unwrap()), a.mul(b));
    let r = prover.r1.unwrap().add(verifier.r2.unwrap());
    assert_eq!(
        prover
            .r_squared_share
            .unwrap()
            .add(verifier.r_squared_share.unwrap()),
        r.mul(r)
    );

    prover.handshake5_input_ec(point_a);
    verifier.handshake5_input_ec(point_b);
    let varepsilon1 = prover
        .handshake5_varepsilon1_share_open()
        .add(verifier.handshake5_varepsilon1_share_open());
    // x2 - x1 - b
    assert_eq!(varepsilon1, P256::new(2).add(b.neg()));
    assert_eq!(
        prover.handshake5_varepsilon1_share_open(),
        P256::new(3).neg().add(prover.b1.unwrap().neg())
    );
    assert_eq!(
        verifier.handshake5_varepsilon1_share_open(),
        P256::new(5).add(verifier.b2.unwrap().neg())
    );
    prover.handshake5_set_omega(varepsilon1);
    verifier.handshake5_set_omega(varepsilon1);
    assert_eq!(
        prover.omega_share.unwrap(),
        varepsilon1.mul(prover.a1.unwrap()).add(prover.c1.unwrap())
    );
    let omega = prover
        .handshake6_omega_share_open()
        .add(verifier.handshake6_omega_share_open());
    assert_eq!(omega, a.mul(P256::new(2)));
    let varepsilon2 = prover
        .handshake6_varepsilon2_share_open()
        .add(verifier.handshake6_varepsilon2_share_open());

    // a zero denominator is refused and leaves the state as it is
    assert_eq!(
        prover.handshake6_set_eta(P256::zero(), varepsilon2),
        Err(E2fError::DegenerateInput)
    );
    assert_eq!(prover.eta_share, None);

    // y2 - y1 - b'
    assert_eq!(
        varepsilon2,
        P256::new(6)
            .neg()
            .add(prover.b1_prime.unwrap().add(verifier.b2_prime.unwrap()).neg())
    );
    prover.handshake6_set_eta(omega, varepsilon2).unwrap();
    verifier.handshake6_set_eta(omega, varepsilon2).unwrap();
    assert_eq!(
        verifier.eta_share.unwrap(),
        omega.inverse().mul(
            varepsilon2
                .mul(verifier.a2.unwrap())
                .add(verifier.c2_prime.unwrap())
        )
    );
    let eta = prover.eta_share.unwrap().add(verifier.eta_share.unwrap());
    // the slope: -6 / 2 = -3
    assert_eq!(eta, P256::new(3).neg());
    let varepsilon3 = prover
        .handshake7_varepsilon3_share_open()
        .add(verifier.handshake7_varepsilon3_share_open());
    assert_eq!(varepsilon3, eta.add(r.neg()));
    prover.handshake7_set_z1(varepsilon3);
    verifier.handshake7_set_z2(varepsilon3);
    let two_e = P256::new(2).mul(varepsilon3);
    assert_eq!(
        prover.handshake8_z1_open(),
        varepsilon3
            .mul(varepsilon3)
            .add(two_e.mul(prover.r1.unwrap()))
            .add(prover.r_squared_share.unwrap())
            .add(P256::new(3).neg())
    );
    assert_eq!(
        verifier.handshake8_z2_open(),
        two_e
            .mul(verifier.r2.unwrap())
            .add(verifier.r_squared_share.unwrap())
            .add(P256::new(5).neg())
    );
    assert_eq!(
        prover
            .handshake8_z1_open()
            .add(verifier.handshake8_z2_open()),
        P256::new(1)
    );
}
