use msm::group::{CurveProjective, CurveScalarMul};
use msm::msm::{msm_with_window, window_sum, VariableBaseMSM};
use msm::scalar::{digit_at, is_one, is_zero};
use msm::window::window_size;
use snarkvm_curves::bls12_377::{Fr, G1Affine, G1Projective};
use snarkvm_curves::{AffineCurve, ProjectiveCurve};
use snarkvm_fields::{PrimeField, Zero};
use snarkvm_utilities::{BigInteger256, BitIteratorBE};

#[derive(Clone, Copy, Debug, PartialEq)]
struct G1(G1Projective);

impl CurveProjective for G1 {
    type Affine = G1Affine;

    fn affine_of(&self) -> G1Affine {
        self.0.to_affine()
    }

    fn sum(a: G1Affine, b: G1Affine) -> G1Affine {
        (a.to_projective() + b.to_projective()).to_affine()
    }

    fn identity() -> G1Affine {
        G1Affine::zero()
    }

    fn scalar_bits() -> usize {
        Fr::size_in_bits()
    }

    fn lemma_sum_assoc(_a: G1Affine, _b: G1Affine, _c: G1Affine) {}

    fn lemma_sum_comm(_a: G1Affine, _b: G1Affine) {}

    fn lemma_sum_identity(_a: G1Affine) {}

    fn zero() -> Self {
        G1(G1Projective::zero())
    }

    fn add_assign_mixed(&mut self, other: &G1Affine) {
        self.0.add_assign_mixed(other);
    }

    fn add_assign(&mut self, other: &Self) {
        self.0 += other.0;
    }

    fn double_in_place(&mut self) {
        self.0.double_in_place();
    }

    fn batch_normalization_into_affine(v: Vec<Self>) -> Vec<G1Affine> {
        G1Projective::batch_normalization_into_affine(v.into_iter().map(|p| p.0).collect())
    }

    fn modulus_bits() -> usize {
        Fr::size_in_bits()
    }
}

impl CurveScalarMul for G1 {
    fn mul(base: &G1Affine, scalar: &[u64; 4]) -> Self {
        G1(base.mul_bits(BitIteratorBE::new(BigInteger256::new(*scalar))))
    }
}

fn generator() -> G1Affine {
    G1Affine::prime_subgroup_generator()
}

fn limbs(x: u64) -> [u64; 4] {
    [x, 0, 0, 0]
}

/// Deterministic scalars below 2^252, hence canonical for this field.
fn scalars(n: usize, seed: u64) -> Vec<[u64; 4]> {
    let mut state = seed.wrapping_mul(6364136223846793005).wrapping_add(1442695040888963407);
    let mut next = || {
        state = state.wrapping_mul(6364136223846793005).wrapping_add(1442695040888963407);
        state ^ (state >> 29)
    };
    (0..n)
        .map(|_| {
            let mut l = [next(), next(), next(), next()];
            l[3] &= (1u64 << 60) - 1;
            l
        })
        .collect()
}

/// Distinct points: (i + 1) · G for each i.
fn bases(n: usize) -> Vec<G1Affine> {
    let g = generator();
    let mut acc = G1Projective::zero();
    let mut out = Vec::new();
    for _ in 0..n {
        acc.add_assign_mixed(&g);
        out.push(acc.to_affine());
    }
    out
}

fn field(l: &[u64; 4]) -> Fr {
    Fr::from_bigint(BigInteger256::new(*l)).unwrap()
}

/// The sum of the products by plain double-and-add.
fn naive(bases: &[G1Affine], scalars: &[[u64; 4]]) -> G1Projective {
    let mut acc = G1Projective::zero();
    for (b, s) in bases.iter().zip(scalars) {
        acc += b.to_projective() * field(s);
    }
    acc
}

fn msm(bases: &[G1Affine], scalars: &[[u64; 4]]) -> G1Projective {
    VariableBaseMSM::multi_scalar_mul::<G1>(bases, scalars).0
}

fn times_g(k: u64) -> G1Projective {
    generator().to_projective() * Fr::from(k)
}

#[test]
fn five_times_generator() {
    assert_eq!(msm(&[generator()], &[limbs(5)]), times_g(5));
}

#[test]
fn three_plus_two_times_generator() {
    assert_eq!(msm(&[generator(), generator()], &[limbs(3), limbs(2)]), times_g(5));
}

#[test]
fn five_g_by_doubling() {
    let mut p = generator().to_projective();
    p.double_in_place();
    p.double_in_place();
    p.add_assign_mixed(&generator());
    assert_eq!(msm(&[generator()], &[limbs(5)]), p);
}

#[test]
fn agrees_with_naive_for_many_sizes() {
    for (k, n) in [0usize, 1, 2, 3, 4, 5, 31, 32, 33, 100].iter().enumerate() {
        let b = bases(*n);
        let s = scalars(*n, k as u64 + 7);
        assert_eq!(msm(&b, &s), naive(&b, &s), "n = {}", n);
    }
}

#[test]
fn empty_input_gives_identity() {
    assert!(msm(&[], &[]).is_zero());
}

#[test]
fn zero_scalars_give_identity() {
    for n in [1usize, 3, 4, 10, 40] {
        let b = bases(n);
        let s = vec![[0u64; 4]; n];
        assert!(msm(&b, &s).is_zero(), "n = {}", n);
    }
}

#[test]
fn single_pair_is_scalar_times_base() {
    let b = bases(7);
    for s in scalars(5, 3) {
        assert_eq!(msm(&b[6..7], &[s]), b[6].to_projective() * field(&s));
    }
}

#[test]
fn threshold_three_and_four_pairs() {
    let b = bases(4);
    let s = scalars(4, 11);
    assert_eq!(msm(&b[..3], &s[..3]), naive(&b[..3], &s[..3]));
    assert_eq!(msm(&b, &s), naive(&b, &s));
}

#[test]
fn unit_scalars_count_once() {
    for n in [4usize, 6, 40] {
        let b = bases(n);
        let mut s = scalars(n, 5);
        for i in (0..n).step_by(2) {
            s[i] = limbs(1);
        }
        assert_eq!(msm(&b, &s), naive(&b, &s), "n = {}", n);
    }
    let b = bases(5);
    let ones = vec![limbs(1); 5];
    assert_eq!(msm(&b, &ones), times_g(15));
}

#[test]
fn window_width_does_not_change_result() {
    let b = bases(20);
    let s = scalars(20, 21);
    let expected = naive(&b, &s);
    for c in [1usize, 2, 3, 4, 5, 7, 8, 13, 16] {
        assert_eq!(msm_with_window::<G1>(&b, &s, c).0, expected, "c = {}", c);
    }
}

#[test]
fn shuffled_pairs_give_same_result() {
    let b = bases(37);
    let s = scalars(37, 99);
    let expected = msm(&b, &s);
    let mut pb = b.clone();
    let mut ps = s.clone();
    pb.reverse();
    ps.reverse();
    assert_eq!(msm(&pb, &ps), expected);
    pb.rotate_left(11);
    ps.rotate_left(11);
    assert_eq!(msm(&pb, &ps), expected);
}

#[test]
fn largest_canonical_scalar() {
    let minus_one = -Fr::from(1u64);
    let l = minus_one.to_bigint().0;
    let b = bases(6);
    let s = vec![l; 6];
    assert_eq!(msm(&b, &s), naive(&b, &s));
    assert_eq!(msm(&b[..1], &s[..1]), -b[0].to_projective());
}

#[test]
fn window_sum_is_digit_weighted() {
    let b = bases(3);
    // Digits at bit 0 with c = 2: 6 -> 2, 7 -> 3, 1 -> 1.
    let s = [limbs(6), limbs(7), limbs(1)];
    let r = window_sum::<G1>(&b, &s, 0, 2).0;
    assert_eq!(r, times_g(2 * 1 + 3 * 2 + 1 * 3));
    // At bit 2: 6 -> 1, 7 -> 1, 1 -> 0.
    let r = window_sum::<G1>(&b, &s, 2, 2).0;
    assert_eq!(r, times_g(1 + 2));
}

#[test]
fn window_size_values() {
    assert_eq!(window_size(0), 3);
    assert_eq!(window_size(4), 3);
    assert_eq!(window_size(31), 3);
    assert_eq!(window_size(32), 6);
    assert_eq!(window_size(64), 6);
    assert_eq!(window_size(100), 7);
    assert_eq!(window_size(1000), 9);
    assert_eq!(window_size(4096), 10);
    assert_eq!(window_size(1 << 20), 16);
}

#[test]
fn digit_extraction() {
    assert_eq!(digit_at(&[0b1011_0110, 0, 0, 0], 0, 3), 0b110);
    assert_eq!(digit_at(&[0b1011_0110, 0, 0, 0], 3, 3), 0b110);
    assert_eq!(digit_at(&[0b1011_0110, 0, 0, 0], 6, 3), 0b10);
    assert_eq!(digit_at(&[0, 1, 0, 0], 64, 3), 1);
    assert_eq!(digit_at(&[1 << 63, 1, 0, 0], 63, 2), 0b11);
    assert_eq!(digit_at(&[0, 0, 0, 1 << 60], 252, 5), 1);
    assert_eq!(digit_at(&[u64::MAX; 4], 250, 8), 0b11_1111);
    assert_eq!(digit_at(&[u64::MAX; 4], 256, 8), 0);
}

#[test]
fn zero_and_one_tests() {
    assert!(is_zero(&[0, 0, 0, 0]));
    assert!(!is_zero(&[0, 0, 0, 1]));
    assert!(is_one(&[1, 0, 0, 0]));
    assert!(!is_one(&[1, 1, 0, 0]));
    assert!(!is_one(&[0, 0, 0, 0]));
}
