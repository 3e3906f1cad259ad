use share_conversion::f2::F2;
use share_conversion::field::{compute_product_repeated, Ring};
use share_conversion::gf2_128::Gf2_128;
use share_conversion::ghash::{
    ghash, ghash_with_input_zero_from_prover, pascal_tri, MaliciousProver, Prover, Verifier,
};
use share_conversion::p256::P256;

#[test]
fn test_ghash() {
    let blocks: Vec<Gf2_128> = (0..10).map(|_| Gf2_128::rand()).collect();

    let h1: Gf2_128 = Gf2_128::rand();
    let h2: Gf2_128 = Gf2_128::rand();
    let h = h1.add(h2);

    let mut prover = Prover::new(blocks.len(), h1);
    let mut verifier = Verifier::new(blocks.len(), h2);

    let ghash = ghash(&blocks, &mut prover, &mut verifier);

    let ghash_expected = {
        let mut hi = vec![h];
        compute_product_repeated(&mut hi, h, blocks.len());

        blocks
            .iter()
            .zip(hi.iter())
            .fold(Gf2_128::zero(), |acc, (&b, &h)| acc.add(b.mul(h)))
    };

    assert_eq!(ghash, ghash_expected);
}

#[test]
fn test_malicious_prover() {
    let blocks: Vec<Gf2_128> = (0..10).map(|_| Gf2_128::rand()).collect();

    let h1: Gf2_128 = Gf2_128::rand();
    let h2: Gf2_128 = Gf2_128::rand();
    let h = h1.add(h2);

    let mut prover = MaliciousProver::new(blocks.len(), h1);
    let mut verifier = Verifier::new(blocks.len(), h2);

    let _ghash = ghash_with_input_zero_from_prover(&blocks, &mut prover, &mut verifier);

    // Now we can extract the full MAC key from the prover's view
    assert_eq!(prover.inner.d_powers[1], h);
}

#[test]
fn test_ghash_invariants() {
    let blocks: Vec<Gf2_128> = (0..1).map(|_| Gf2_128::rand()).collect();

    let h1: Gf2_128 = Gf2_128::rand();
    let h2: Gf2_128 = Gf2_128::rand();

    let mut prover = Prover::new(blocks.len(), h1);
    let mut verifier = Verifier::new(blocks.len(), h2);

    let _ = ghash(&blocks, &mut prover, &mut verifier);

    assert_eq!(prover.d_powers[0], Gf2_128::one());
    assert_eq!(verifier.d_powers[0], Gf2_128::one());
    assert_eq!(prover.d_powers[1], verifier.d_powers[1]);

    assert_eq!(prover.ai[1].add(verifier.bi[1]), prover.r1.mul(verifier.r2));
    assert_eq!(prover.h1.add(verifier.h2), prover.hi[0].add(verifier.hi[0]));
    assert_eq!(
        prover.d_powers[1].add(prover.ai[1]).add(verifier.bi[1]),
        h1.add(h2)
    );
}

#[test]
fn test_pascal_tri() {
    // This is an extension field so no naive arithmetic!
    let pascal = pascal_tri::<Gf2_128>(4);

    let expected0 = vec![Gf2_128::one()];
    let expected1 = vec![Gf2_128::one(), Gf2_128::one()];
    let expected2 = vec![Gf2_128::one(), Gf2_128::zero(), Gf2_128::one()];
    let expected3 = vec![
        Gf2_128::one(),
        Gf2_128::one(),
        Gf2_128::one(),
        Gf2_128::one(),
    ];
    let expected4 = vec![
        Gf2_128::one(),
        Gf2_128::zero(),
        Gf2_128::zero(),
        Gf2_128::zero(),
        Gf2_128::one(),
    ];

    assert_eq!(pascal[0], expected0);
    assert_eq!(pascal[1], expected1);
    assert_eq!(pascal[2], expected2);
    assert_eq!(pascal[3], expected3);
    assert_eq!(pascal[4], expected4);
}

fn power<T: Ring>(base: T, n: usize) -> T {
    let mut p = T::one();
    for _ in 0..n {
        p = base.mul(p);
    }
    p
}

fn hash_by_powers<T: Ring>(blocks: &[T], h: T) -> T {
    let mut sum = T::zero();
    for (i, block) in blocks.iter().enumerate() {
        sum = sum.add(block.mul(power(h, i + 1)));
    }
    sum
}

fn binomial(n: u64, k: u64) -> u64 {
    if k == 0 {
        1
    } else if n == 0 {
        0
    } else {
        binomial(n - 1, k - 1) + binomial(n - 1, k)
    }
}

#[test]
fn ghash_for_one_to_twelve_blocks() {
    for n in 1..=12 {
        let blocks: Vec<Gf2_128> = (0..n).map(|_| Gf2_128::rand()).collect();
        let h1 = Gf2_128::rand();
        let h2 = Gf2_128::rand();
        let mut prover = Prover::new(n, h1);
        let mut verifier = Verifier::new(n, h2);
        let hash = ghash(&blocks, &mut prover, &mut verifier);
        assert_eq!(hash, hash_by_powers(&blocks, h1.add(h2)));
        assert_eq!(
            hash,
            prover
                .handshake_output_ghash(&blocks)
                .add(verifier.handshake_output_ghash(&blocks))
        );
        assert_eq!(prover.hi.len(), n);
        for k in 1..=n {
            assert_eq!(
                prover.hi[k - 1].add(verifier.hi[k - 1]),
                power(h1.add(h2), k)
            );
        }
    }
}

#[test]
fn ghash_with_fewer_blocks_than_powers() {
    let blocks = vec![Gf2_128::new(7), Gf2_128::new(9)];
    let h1 = Gf2_128::new(0x1234);
    let h2 = Gf2_128::new(0xabcd_0000);
    let mut prover = Prover::new(5, h1);
    let mut verifier = Verifier::new(5, h2);
    let hash = ghash(&blocks, &mut prover, &mut verifier);
    let h = h1.add(h2);
    assert_eq!(hash, Gf2_128::new(7).mul(h).add(Gf2_128::new(9).mul(h.mul(h))));
    // the powers 0 to 5 of the opened value, and as many mask shares
    assert_eq!(prover.d_powers.len(), 6);
    assert_eq!(verifier.d_powers.len(), 6);
    assert_eq!(prover.ai.len(), 6);
}

#[test]
fn ghash_exact_value() {
    // key x (= 2), one block x^2 + 1 (= 5): the hash is x^3 + x (= 10)
    let mut prover = Prover::new(1, Gf2_128::new(3));
    let mut verifier = Verifier::new(1, Gf2_128::new(1));
    let hash = ghash(&[Gf2_128::new(5)], &mut prover, &mut verifier);
    assert_eq!(hash, Gf2_128::new(10));
}

#[test]
fn ghash_two_runs_agree() {
    let blocks: Vec<Gf2_128> = (0..4).map(|_| Gf2_128::rand()).collect();
    let h1 = Gf2_128::rand();
    let h2 = Gf2_128::rand();
    let mut prover = Prover::new(4, h1);
    let mut verifier = Verifier::new(4, h2);
    let first = ghash(&blocks, &mut prover, &mut verifier);
    let mut prover_again = Prover::new(4, h1);
    let mut verifier_again = Verifier::new(4, h2);
    let second = ghash(&blocks, &mut prover_again, &mut verifier_again);
    assert_eq!(first, second);
    assert_ne!(prover.r1, prover_again.r1);
    assert_ne!(
        prover.handshake_output_ghash(&blocks),
        prover_again.handshake_output_ghash(&blocks)
    );
}

#[test]
fn ghash_over_other_fields() {
    // The protocol is the same over any field: here the prime field, in
    // which the binomial coefficients do not collapse.
    for n in 1..=6 {
        let blocks: Vec<P256> = (0..n).map(|_| P256::rand()).collect();
        let h1 = P256::rand();
        let h2 = P256::rand();
        let mut prover = Prover::new(n, h1);
        let mut verifier = Verifier::new(n, h2);
        let hash = ghash(&blocks, &mut prover, &mut verifier);
        assert_eq!(hash, hash_by_powers(&blocks, h1.add(h2)));
    }
    let blocks = vec![F2::new(true), F2::new(false), F2::new(true)];
    let mut prover = Prover::new(3, F2::new(true));
    let mut verifier = Verifier::new(3, F2::new(false));
    // h = 1: the hash is the sum of the blocks
    assert_eq!(ghash(&blocks, &mut prover, &mut verifier), F2::new(false));
}

#[test]
fn malicious_prover_has_zero_mask() {
    let h1 = Gf2_128::new(77);
    let prover = MaliciousProver::new(3, h1);
    assert_eq!(prover.inner.r1, Gf2_128::zero());
    assert_eq!(prover.inner.h1, h1);
    assert_eq!(prover.inner.block_num, 3);
    assert!(prover.inner.hi.is_empty());

    let blocks = vec![Gf2_128::new(1), Gf2_128::new(2), Gf2_128::new(3)];
    let h2 = Gf2_128::new(1000);
    let mut prover = MaliciousProver::new(3, h1);
    let mut verifier = Verifier::new(3, h2);
    let hash = ghash_with_input_zero_from_prover(&blocks, &mut prover, &mut verifier);
    // the hash is still right
    assert_eq!(hash, hash_by_powers(&blocks, h1.add(h2)));
}

#[test]
fn ghash_phases_by_hand() {
    let n = 3;
    let h1 = Gf2_128::rand();
    let h2 = Gf2_128::rand();
    let mut prover = Prover::new(n, h1);
    let mut verifier = Verifier::new(n, h2);
    let mut ole = share_conversion::func::ole::Ole::default();
    prover.preprocess_ole_input(&mut ole);
    verifier.preprocess_ole_input(&mut ole);
    prover.preprocess_ole_output(&mut ole).unwrap();
    verifier.preprocess_ole_output(&mut ole).unwrap();
    assert_eq!(prover.ai.len(), n + 1);
    for i in 0..=n {
        assert_eq!(
            prover.ai[i].add(verifier.bi[i]),
            power(prover.r1.mul(verifier.r2), i)
        );
    }
    assert_eq!(prover.handshake_a_open_d(), h1.add(prover.ai[1].neg()));
    assert_eq!(verifier.handshake_a_open_d(), h2.add(verifier.bi[1].neg()));
    let d = prover
        .handshake_a_open_d()
        .add(verifier.handshake_a_open_d());
    assert_eq!(d, h1.add(h2).add(prover.r1.mul(verifier.r2).neg()));
    prover.handshake_a_set_di(d);
    verifier.handshake_a_set_di(d);
    assert_eq!(prover.d_powers.len(), n + 1);
    assert_eq!(verifier.d_powers.len(), n + 1);
    for i in 0..n + 1 {
        assert_eq!(prover.d_powers[i], power(d, i));
        assert_eq!(verifier.d_powers[i], power(d, i));
    }
    prover.handshake_a_set_hi();
    verifier.handshake_a_set_hi();
    assert_eq!(prover.hi.len(), n);
    assert_eq!(verifier.hi.len(), n);
    assert_eq!(prover.hi[0].add(verifier.hi[0]), h1.add(h2));
    // the share of the first power: d * a0 + a1
    assert_eq!(prover.hi[0], d.mul(prover.ai[0]).add(prover.ai[1]));
    // of the second, in characteristic two: d^2 * a0 + a2
    assert_eq!(
        verifier.hi[1],
        d.mul(d).mul(verifier.bi[0]).add(verifier.bi[2])
    );
    // of the third: d^3 * a0 + d^2 * a1 + d * a2 + a3
    assert_eq!(
        prover.hi[2],
        power(d, 3)
            .mul(prover.ai[0])
            .add(power(d, 2).mul(prover.ai[1]))
            .add(d.mul(prover.ai[2]))
            .add(prover.ai[3])
    );
    let blocks = [Gf2_128::new(2), Gf2_128::new(3), Gf2_128::new(5)];
    assert_eq!(
        verifier.handshake_output_ghash(&blocks),
        blocks[0]
            .mul(verifier.hi[0])
            .add(blocks[1].mul(verifier.hi[1]))
            .add(blocks[2].mul(verifier.hi[2]))
    );
    assert_eq!(prover.handshake_output_ghash(&[]), Gf2_128::zero());
}

#[test]
fn pascal_rows_follow_the_recurrence() {
    let rows = pascal_tri::<P256>(12);
    assert_eq!(rows.len(), 13);
    for n in 0..=12 {
        assert_eq!(rows[n].len(), n + 1);
        assert_eq!(rows[n][0], P256::one());
        assert_eq!(rows[n][n], P256::one());
        for k in 0..=n {
            assert_eq!(rows[n][k], P256::new(binomial(n as u64, k as u64)));
            if 0 < k && k < n {
                assert_eq!(rows[n][k], rows[n - 1][k - 1].add(rows[n - 1][k]));
            }
        }
    }
    assert_eq!(
        rows[6],
        vec![
            P256::new(1),
            P256::new(6),
            P256::new(15),
            P256::new(20),
            P256::new(15),
            P256::new(6),
            P256::new(1)
        ]
    );
}

#[test]
fn pascal_rows_in_characteristic_two() {
    let rows = pascal_tri::<Gf2_128>(17);
    let bits = pascal_tri::<F2>(17);
    for n in 0..=17 {
        for k in 0..=n {
            let odd = binomial(n as u64, k as u64) % 2 == 1;
            assert_eq!(rows[n][k], if odd { Gf2_128::one() } else { Gf2_128::zero() });
            assert_eq!(bits[n][k], F2::new(odd));
        }
    }
    // row 8 has only its borders, row 7 is all ones
    assert!(rows[8][1..8].iter().all(|c| *c == Gf2_128::zero()));
    assert!(rows[7].iter().all(|c| *c == Gf2_128::one()));
}

#[test]
fn pascal_row_zero() {
    let rows = pascal_tri::<F2>(0);
    assert_eq!(rows, vec![vec![F2::new(true)]]);
}
