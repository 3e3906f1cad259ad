use itybity::ToBits;
use share_conversion::f2::F2;
use share_conversion::field::{compute_product_repeated, Field, Ring};
use share_conversion::gf2_128::Gf2_128;
use share_conversion::p256::P256;
use share_conversion::{get_bit, rot};

#[test]
fn test() {
    let a: Gf2_128 = Gf2_128::rand();
    let b: Gf2_128 = Gf2_128::rand();

    let mut ts = Vec::new();
    let mut ys = Vec::new();

    for b_i in b.to_inner().iter_lsb0() {
        let ((t_0, t_1), t_b) = rot(b_i);
        let u_i = t_0.add(t_1.neg()).add(a);

        let y_i = if b_i { t_b.add(u_i) } else { t_b };

        assert_eq!(y_i, if b_i { t_0.add(a) } else { t_0 });

        ts.push(t_0);
        ys.push(y_i);
    }

    let x = ts
        .into_iter()
        .enumerate()
        .fold(Gf2_128::zero(), |acc, (i, t_i)| {
            acc.add(t_i.mul(Gf2_128::two_pow(i as u32)))
        });
    let y = ys
        .into_iter()
        .enumerate()
        .fold(Gf2_128::zero(), |acc, (i, y_i)| {
            acc.add(y_i.mul(Gf2_128::two_pow(i as u32)))
        })
        .neg();

    assert_eq!(x.add(y), a.mul(b));
}

#[test]
fn rot_hands_out_the_chosen_message() {
    for _ in 0..16 {
        let ((t_0, t_1), t_x) = rot(false);
        assert_eq!(t_x, t_0);
        let ((t_0, t_1b), t_x) = rot(true);
        assert_eq!(t_x, t_1b);
        assert_ne!(t_0, t_1);
    }
}

#[test]
fn get_bit_reads_each_place() {
    assert!(get_bit(1, 0));
    assert!(!get_bit(1, 1));
    assert!(get_bit(0b1010, 1));
    assert!(!get_bit(0b1010, 2));
    assert!(get_bit(0b1010, 3));
    assert!(get_bit(1 << 63, 63));
    assert!(!get_bit(u64::MAX >> 1, 63));
    assert!(!get_bit(0, 17));
    for idx in 0..64 {
        assert!(get_bit(u64::MAX, idx));
        assert_eq!(get_bit(0x0123_4567_89ab_cdef, idx), (0x0123_4567_89ab_cdefu64 >> idx) % 2 == 1);
    }
}

#[test]
fn f2_arithmetic() {
    let zero = F2::new(false);
    let one = F2::new(true);
    assert_eq!(F2::zero(), zero);
    assert_eq!(F2::one(), one);
    assert!(!zero.to_bool());
    assert!(one.to_bool());
    assert_eq!(zero.add(zero), zero);
    assert_eq!(zero.add(one), one);
    assert_eq!(one.add(zero), one);
    assert_eq!(one.add(one), zero);
    assert_eq!(zero.mul(zero), zero);
    assert_eq!(zero.mul(one), zero);
    assert_eq!(one.mul(zero), zero);
    assert_eq!(one.mul(one), one);
    assert_eq!(one.neg(), one);
    assert_eq!(zero.neg(), zero);
    assert_eq!(one.inverse(), one);
    assert!(zero.is_zero());
    assert!(!one.is_zero());
}

#[test]
fn f2_rand_gives_both_elements() {
    let drawn: Vec<F2> = (0..256).map(|_| F2::rand()).collect();
    assert!(drawn.contains(&F2::new(false)));
    assert!(drawn.contains(&F2::new(true)));
}

const P_LIMBS: [u64; 4] = [
    0xffff_ffff_ffff_ffff,
    0x0000_0000_ffff_ffff,
    0x0000_0000_0000_0000,
    0xffff_ffff_0000_0001,
];

#[test]
fn p256_limbs() {
    assert_eq!(P256::from_limbs(P_LIMBS), None);
    assert_eq!(P256::from_limbs([u64::MAX; 4]), None);
    assert_eq!(P256::from_limbs([0, 0, 1, 0xffff_ffff_0000_0001]), None);
    assert_eq!(P256::from_limbs([0, 0x1_0000_0000, 0, 0xffff_ffff_0000_0001]), None);
    let largest = [P_LIMBS[0] - 1, P_LIMBS[1], P_LIMBS[2], P_LIMBS[3]];
    assert_eq!(P256::from_limbs(largest).unwrap().to_limbs(), largest);
    assert_eq!(
        P256::from_limbs([u64::MAX, u64::MAX, u64::MAX, 0xffff_ffff_0000_0000])
            .unwrap()
            .to_limbs(),
        [u64::MAX, u64::MAX, u64::MAX, 0xffff_ffff_0000_0000]
    );
    assert_eq!(P256::from_limbs([7, 0, 0, 0]), Some(P256::new(7)));
    assert_eq!(P256::new(u64::MAX).to_limbs(), [u64::MAX, 0, 0, 0]);
    assert_eq!(P256::zero().to_limbs(), [0, 0, 0, 0]);
    assert_eq!(P256::one().to_limbs(), [1, 0, 0, 0]);
}

#[test]
fn p256_arithmetic() {
    let largest =
        P256::from_limbs([P_LIMBS[0] - 1, P_LIMBS[1], P_LIMBS[2], P_LIMBS[3]]).unwrap();
    assert_eq!(P256::new(2).add(P256::new(3)), P256::new(5));
    assert_eq!(P256::new(u64::MAX).add(P256::new(1)).to_limbs(), [0, 1, 0, 0]);
    assert_eq!(largest.add(P256::new(1)), P256::zero());
    assert_eq!(largest.add(P256::new(5)), P256::new(4));
    assert_eq!(P256::new(1).neg(), largest);
    assert_eq!(P256::zero().neg(), P256::zero());
    assert_eq!(largest.neg(), P256::new(1));
    assert_eq!(P256::new(6).mul(P256::new(7)), P256::new(42));
    assert_eq!(
        P256::new(1 << 63).mul(P256::new(4)).to_limbs(),
        [0, 2, 0, 0]
    );
    // (-1) * (-1) = 1
    assert_eq!(largest.mul(largest), P256::new(1));
    assert_eq!(largest.mul(P256::new(2)), P256::new(2).neg());
    assert_eq!(P256::new(1).inverse(), P256::new(1));
    assert_eq!(largest.inverse(), largest);
    let half = P256::new(2).inverse();
    assert_ne!(half, P256::new(2));
    assert_eq!(half.add(half), P256::new(1));
    // (p + 1) / 2
    assert_eq!(
        half.to_limbs(),
        [0x0000_0000_0000_0000, 0x0000_0000_8000_0000, 0x8000_0000_0000_0000, 0x7fff_ffff_8000_0000]
    );
    assert!(P256::zero().is_zero());
    assert!(!half.is_zero());
    for _ in 0..32 {
        let a = P256::rand();
        let b = P256::rand();
        assert_eq!(P256::from_limbs(a.to_limbs()), Some(a));
        assert_eq!(a.add(b.neg()).add(b), a);
        if !a.is_zero() {
            assert_eq!(a.mul(a.inverse()), P256::one());
            assert_eq!(a.mul(b).mul(a.inverse()), b);
        }
    }
}

#[test]
fn gf2_128_arithmetic() {
    let x = Gf2_128::new(2);
    assert_eq!(Gf2_128::zero().to_inner(), 0);
    assert_eq!(Gf2_128::one().to_inner(), 1);
    assert_eq!(Gf2_128::new(0b1100).add(Gf2_128::new(0b1010)), Gf2_128::new(0b0110));
    assert_eq!(Gf2_128::new(5).neg(), Gf2_128::new(5));
    assert_eq!(Gf2_128::one().add(Gf2_128::one()), Gf2_128::zero());
    // (x + 1)(x^2 + 1) = x^3 + x^2 + x + 1
    assert_eq!(Gf2_128::new(3).mul(Gf2_128::new(5)), Gf2_128::new(15));
    // (x + 1)^2 = x^2 + 1
    assert_eq!(Gf2_128::new(3).mul(Gf2_128::new(3)), Gf2_128::new(5));
    // x^127 * x = x^7 + x^2 + x + 1
    assert_eq!(Gf2_128::new(1 << 127).mul(x), Gf2_128::new(0x87));
    // x^127 * x^2 = x^8 + x^3 + x^2 + x
    assert_eq!(Gf2_128::new(1 << 127).mul(Gf2_128::new(4)), Gf2_128::new(0x10e));
    // x^64 * x^64 = x^128
    assert_eq!(Gf2_128::new(1 << 64).mul(Gf2_128::new(1 << 64)), Gf2_128::new(0x87));
    assert_eq!(Gf2_128::two_pow(0), Gf2_128::one());
    assert_eq!(Gf2_128::two_pow(127), Gf2_128::new(1 << 127));
    assert_eq!(Gf2_128::two_pow(100).mul(Gf2_128::two_pow(27)), Gf2_128::two_pow(127));
    assert!(Gf2_128::zero().is_zero());
    assert!(!x.is_zero());
    for _ in 0..32 {
        let a = Gf2_128::rand();
        let b = Gf2_128::rand();
        let c = Gf2_128::rand();
        assert_eq!(a.mul(b), b.mul(a));
        assert_eq!(a.mul(b).mul(c), a.mul(b.mul(c)));
        assert_eq!(a.mul(b.add(c)), a.mul(b).add(a.mul(c)));
        assert_eq!(a.mul(Gf2_128::one()), a);
        assert_eq!(a.mul(Gf2_128::zero()), Gf2_128::zero());
        assert_eq!(a.add(a), Gf2_128::zero());
    }
}

#[test]
fn repeated_products() {
    let mut powers = vec![P256::new(1)];
    compute_product_repeated(&mut powers, P256::new(3), 4);
    assert_eq!(
        powers,
        vec![P256::new(1), P256::new(3), P256::new(9), P256::new(27), P256::new(81)]
    );
    let mut from_five = vec![P256::new(7), P256::new(5)];
    compute_product_repeated(&mut from_five, P256::new(2), 2);
    assert_eq!(
        from_five,
        vec![P256::new(7), P256::new(5), P256::new(10), P256::new(20)]
    );
    let mut untouched = vec![Gf2_128::new(9)];
    compute_product_repeated(&mut untouched, Gf2_128::new(2), 0);
    assert_eq!(untouched, vec![Gf2_128::new(9)]);
}
