use crate::group::{
    lemma_lin_comb_add, lemma_lin_comb_bump, lemma_lin_comb_ext, lemma_lin_comb_zero, lin_comb,
    CurveProjective,
};
use crate::scalar::{
    bigint_value, digit_at, is_one, is_one_limbs, is_zero, is_zero_limbs, lemma_digit_zero_one,
    window_digit,
};
use crate::group::CurveScalarMul;
use crate::window::window_size;
use vstd::arithmetic::div_mod::{lemma_div_denominator, lemma_fundamental_div_mod};
use vstd::arithmetic::power2::{lemma2_to64, lemma_pow2_adds, lemma_pow2_pos, lemma_pow2_strictly_increases, pow2};
use vstd::prelude::*;

verus! {

/// The integer value of each scalar.
pub open spec fn scalar_values(s: Seq<[u64; 4]>) -> Seq<nat> {
    s.map_values(|l: [u64; 4]| bigint_value(l))
}

/// `Σ_i scalar_i · base_i`.
pub open spec fn msm_spec<G: CurveProjective>(bases: Seq<G::Affine>, scalars: Seq<[u64; 4]>) -> G::Affine {
    lin_comb::<G>(bases, scalar_values(scalars), bases.len())
}

/// The coefficient of each base in the sum of one window: the scalar's digit
/// there.
pub open spec fn digit_coeffs(s: Seq<[u64; 4]>, w: nat, c: nat) -> Seq<nat> {
    Seq::new(s.len(), |i: int| window_digit(bigint_value(s[i]), w, c))
}

/// A scalar that goes through the buckets (not zero, not one).
spec fn bucketed(l: [u64; 4]) -> bool {
    !is_zero_limbs(l) && !is_one_limbs(l)
}

/// Pairs below `j` whose scalar is one, added directly in the lowest window.
spec fn unit_coeffs(s: Seq<[u64; 4]>, w: nat, j: int) -> Seq<nat> {
    Seq::new(s.len(), |i: int| if i < j && is_one_limbs(s[i]) && w == 0 { 1nat } else { 0nat })
}

/// Pairs below `j` that fall into the bucket of digit `k`.
spec fn bucket_coeffs(s: Seq<[u64; 4]>, w: nat, c: nat, j: int, k: nat) -> Seq<nat> {
    Seq::new(
        s.len(),
        |i: int|
            if i < j && bucketed(s[i]) && window_digit(bigint_value(s[i]), w, c) == k {
                1nat
            } else {
                0nat
            },
    )
}

/// The running suffix sum once the buckets of digits `k..` are taken in.
spec fn running_coeffs(s: Seq<[u64; 4]>, w: nat, c: nat, k: nat) -> Seq<nat> {
    Seq::new(
        s.len(),
        |i: int|
            if bucketed(s[i]) && window_digit(bigint_value(s[i]), w, c) >= k {
                1nat
            } else {
                0nat
            },
    )
}

/// The window's result once the buckets of digits `k..` are taken in.
spec fn partial_coeffs(s: Seq<[u64; 4]>, w: nat, c: nat, k: nat) -> Seq<nat> {
    Seq::new(
        s.len(),
        |i: int|
            unit_coeffs(s, w, s.len() as int)[i] + if bucketed(s[i]) && window_digit(
                bigint_value(s[i]),
                w,
                c,
            ) >= k {
                (window_digit(bigint_value(s[i]), w, c) - k + 1) as nat
            } else {
                0nat
            },
    )
}

/// The sum of one window: `Σ_i digit_i · base_i`, where `digit_i` is the
/// `c`-bit digit of `scalars[i]` at bit `w`.
pub fn window_sum<G: CurveProjective>(bases: &[G::Affine], scalars: &[[u64; 4]], w: u32, c: u32) -> (r: G)
    requires
        bases@.len() == scalars@.len(),
        1 <= c <= 63,
        c < usize::BITS,
    ensures
        r.affine_of() == lin_comb::<G>(bases@, digit_coeffs(scalars@, w as nat, c as nat), bases@.len()),
{
    let ghost b = bases@;
    let ghost s = scalars@;
    let ghost n = bases@.len();
    let ghost wn = w as nat;
    let ghost cn = c as nat;
    proof {
        vstd::bits::lemma_usize_pow2_no_overflow(cn);
        vstd::bits::lemma_usize_shl_is_mul(1, c as usize);
    }
    let num_buckets: usize = (1usize << (c as usize)) - 1;
    let mut res = G::zero();
    let mut buckets: Vec<G> = Vec::new();
    while buckets.len() < num_buckets
        invariant
            buckets@.len() <= num_buckets,
            forall|k: int|
                0 <= k < buckets@.len() ==> #[trigger] buckets@[k].affine_of() == G::identity(),
        decreases num_buckets - buckets@.len(),
    {
        buckets.push(G::zero());
    }
    proof {
        lemma_lin_comb_zero::<G>(b, unit_coeffs(s, wn, 0), n);
        assert forall|k: int| 0 <= k < num_buckets implies #[trigger] buckets@[k].affine_of()
            == lin_comb::<G>(b, bucket_coeffs(s, wn, cn, 0, (k + 1) as nat), n) by {
            lemma_lin_comb_zero::<G>(b, bucket_coeffs(s, wn, cn, 0, (k + 1) as nat), n);
        }
    }
    let mut j: usize = 0;
    while j < scalars.len()
        invariant
            b == bases@,
            s == scalars@,
            n == s.len(),
            n == b.len(),
            wn == w,
            cn == c,
            1 <= c <= 63,
            j <= n,
            num_buckets == pow2(cn) - 1,
            buckets@.len() == num_buckets,
            res.affine_of() == lin_comb::<G>(b, unit_coeffs(s, wn, j as int), n),
            forall|k: int|
                0 <= k < num_buckets ==> #[trigger] buckets@[k].affine_of() == lin_comb::<G>(
                    b,
                    bucket_coeffs(s, wn, cn, j as int, (k + 1) as nat),
                    n,
                ),
        decreases n - j,
    {
        let ghost old_buckets = buckets@;
        let ghost ji = j as int;
        if is_zero(&scalars[j]) {
        } else if is_one(&scalars[j]) {
            if w == 0 {
                res.add_assign_mixed(&bases[j]);
                proof {
                    lemma_lin_comb_bump::<G>(b, unit_coeffs(s, wn, ji), unit_coeffs(s, wn, ji + 1), ji, n);
                }
            }
        } else {
            let d = digit_at(&scalars[j], w, c);
            if d != 0 {
                let di = (d - 1) as usize;
                buckets[di].add_assign_mixed(&bases[j]);
                proof {
                    lemma_lin_comb_bump::<G>(
                        b,
                        bucket_coeffs(s, wn, cn, ji, d as nat),
                        bucket_coeffs(s, wn, cn, ji + 1, d as nat),
                        ji,
                        n,
                    );
                }
            }
        }
        proof {
            if !(is_one_limbs(s[ji]) && w == 0) {
                lemma_lin_comb_ext::<G>(b, unit_coeffs(s, wn, ji), unit_coeffs(s, wn, ji + 1), n);
            }
            assert forall|k: int| 0 <= k < num_buckets implies #[trigger] buckets@[k].affine_of()
                == lin_comb::<G>(b, bucket_coeffs(s, wn, cn, ji + 1, (k + 1) as nat), n) by {
                if buckets@[k] == old_buckets[k] && !(bucketed(s[ji]) && window_digit(
                    bigint_value(s[ji]),
                    wn,
                    cn,
                ) == k + 1) {
                    lemma_lin_comb_ext::<G>(
                        b,
                        bucket_coeffs(s, wn, cn, ji, (k + 1) as nat),
                        bucket_coeffs(s, wn, cn, ji + 1, (k + 1) as nat),
                        n,
                    );
                }
            }
        }
        j += 1;
    }
    let ghost filled = buckets@;
    let affine = G::batch_normalization_into_affine(buckets);
    let mut running = G::zero();
    proof {
        assert forall|q: int| 0 <= q < num_buckets implies #[trigger] affine@[q] == lin_comb::<G>(
            b,
            bucket_coeffs(s, wn, cn, n as int, (q + 1) as nat),
            n,
        ) by {
            assert(affine@[q] == filled[q].affine_of());
        }
        lemma_lin_comb_zero::<G>(b, running_coeffs(s, wn, cn, pow2(cn)), n);
        lemma_lin_comb_ext::<G>(b, unit_coeffs(s, wn, n as int), partial_coeffs(s, wn, cn, pow2(cn)), n);
    }
    let mut k: usize = num_buckets;
    while k > 0
        invariant
            b == bases@,
            s == scalars@,
            n == s.len(),
            n == b.len(),
            wn == w,
            cn == c,
            k <= num_buckets,
            num_buckets == pow2(cn) - 1,
            affine@.len() == num_buckets,
            forall|q: int|
                0 <= q < num_buckets ==> #[trigger] affine@[q] == lin_comb::<G>(
                    b,
                    bucket_coeffs(s, wn, cn, n as int, (q + 1) as nat),
                    n,
                ),
            running.affine_of() == lin_comb::<G>(b, running_coeffs(s, wn, cn, (k + 1) as nat), n),
            res.affine_of() == lin_comb::<G>(b, partial_coeffs(s, wn, cn, (k + 1) as nat), n),
        decreases k,
    {
        let ghost kn = k as nat;
        running.add_assign_mixed(&affine[k - 1]);
        proof {
            lemma_lin_comb_add::<G>(
                b,
                running_coeffs(s, wn, cn, kn + 1),
                bucket_coeffs(s, wn, cn, n as int, kn),
                running_coeffs(s, wn, cn, kn),
                n,
            );
        }
        res.add_assign(&running);
        proof {
            lemma_lin_comb_add::<G>(
                b,
                partial_coeffs(s, wn, cn, kn + 1),
                running_coeffs(s, wn, cn, kn),
                partial_coeffs(s, wn, cn, kn),
                n,
            );
        }
        k -= 1;
    }
    proof {
        assert forall|i: int| 0 <= i < n implies partial_coeffs(s, wn, cn, 1)[i] == digit_coeffs(
            s,
            wn,
            cn,
        )[i] by {
            lemma_digit_zero_one(wn, cn);
        }
        lemma_lin_comb_ext::<G>(b, partial_coeffs(s, wn, cn, 1), digit_coeffs(s, wn, cn), n);
    }
    res
}

/// Below this many pairs the products are summed one by one.
pub const SMALL_MSM: usize = 4;

/// Every scalar lies below `2^bits`.
pub open spec fn scalars_below(scalars: Seq<[u64; 4]>, bits: nat) -> bool {
    forall|i: int| 0 <= i < scalars.len() ==> #[trigger] bigint_value(scalars[i]) < pow2(bits)
}

/// `2^j · (scalar_i >> q)` for each pair.
spec fn scaled_coeffs(s: Seq<[u64; 4]>, q: nat, j: nat) -> Seq<nat> {
    Seq::new(s.len(), |i: int| pow2(j) * (bigint_value(s[i]) / pow2(q)))
}

/// One step of the positional fold:
/// `2^c · (v >> (t+1)c) + digit_t(v) == v >> tc`.
proof fn lemma_horner_step(v: nat, t: nat, c: nat)
    ensures
        pow2(c) * (v / pow2((t + 1) * c)) + window_digit(v, t * c, c) == v / pow2(t * c),
{
    let x = v / pow2(t * c);
    lemma_pow2_pos(t * c);
    lemma_pow2_pos(c);
    lemma_div_denominator(v as int, pow2(t * c) as int, pow2(c) as int);
    lemma_pow2_adds(t * c, c);
    assert((t + 1) * c == t * c + c) by (nonlinear_arith);
    lemma_fundamental_div_mod(x as int, pow2(c) as int);
}

/// Multi-scalar multiplication by the bucket method with windows of `c` bits.
pub fn msm_with_window<G: CurveProjective>(bases: &[G::Affine], scalars: &[[u64; 4]], c: usize) -> (r: G)
    requires
        bases@.len() == scalars@.len(),
        1 <= c <= 63,
        c < usize::BITS,
        scalars_below(scalars@, G::scalar_bits() as nat),
    ensures
        r.affine_of() == msm_spec::<G>(bases@, scalars@),
{
    let ghost b = bases@;
    let ghost s = scalars@;
    let ghost n = bases@.len();
    let ghost cn = c as nat;
    let num_bits = G::modulus_bits();
    let mut window_sums: Vec<G> = Vec::new();
    let mut w: usize = 0;
    assert(0 == window_sums@.len() * c);
    while w < num_bits
        invariant
            b == bases@,
            s == scalars@,
            n == b.len(),
            n == s.len(),
            cn == c,
            1 <= c <= 63,
            c < usize::BITS,
            num_bits <= 256,
            w == window_sums@.len() * c,
            w < num_bits + c,
            forall|t: int|
                0 <= t < window_sums@.len() ==> #[trigger] window_sums@[t].affine_of() == lin_comb::<G>(
                    b,
                    digit_coeffs(s, (t * c) as nat, cn),
                    n,
                ),
        decreases num_bits + c - w,
    {
        let sum = window_sum::<G>(bases, scalars, w as u32, c as u32);
        proof {
            let len = window_sums@.len();
            assert((len + 1) * c == len * c + c) by (nonlinear_arith);
        }
        window_sums.push(sum);
        w = w + c;
    }
    let m = window_sums.len();
    let ghost mn = m as nat;
    proof {
        assert(m >= 1) by (nonlinear_arith)
            requires
                w == m * c,
                w >= num_bits,
                num_bits > 0,
        ;
        assert forall|i: int| 0 <= i < n implies #[trigger] scaled_coeffs(s, mn * cn, cn)[i] == 0 by {
            let v = bigint_value(s[i]);
            if mn * cn > num_bits {
                lemma_pow2_strictly_increases(num_bits as nat, mn * cn);
            }
            assert(v / pow2(mn * cn) == 0) by (nonlinear_arith)
                requires
                    v < pow2(mn * cn),
            ;
        }
        lemma_lin_comb_zero::<G>(b, scaled_coeffs(s, mn * cn, cn), n);
    }
    let mut total = G::zero();
    let mut t: usize = m;
    while t > 1
        invariant
            b == bases@,
            s == scalars@,
            n == b.len(),
            n == s.len(),
            cn == c,
            1 <= t <= m,
            window_sums@.len() == m,
            forall|q: int|
                0 <= q < m ==> #[trigger] window_sums@[q].affine_of() == lin_comb::<G>(
                    b,
                    digit_coeffs(s, (q * c) as nat, cn),
                    n,
                ),
            total.affine_of() == lin_comb::<G>(b, scaled_coeffs(s, (t * c) as nat, cn), n),
        decreases t,
    {
        t -= 1;
        let ghost tn = t as nat;
        total.add_assign(&window_sums[t]);
        proof {
            assert forall|i: int| 0 <= i < n implies #[trigger] scaled_coeffs(s, tn * cn, 0)[i]
                == scaled_coeffs(s, (tn + 1) * cn, cn)[i] + digit_coeffs(s, tn * cn, cn)[i] by {
                lemma_horner_step(bigint_value(s[i]), tn, cn);
                lemma2_to64();
            }
            lemma_lin_comb_add::<G>(
                b,
                scaled_coeffs(s, (tn + 1) * cn, cn),
                digit_coeffs(s, tn * cn, cn),
                scaled_coeffs(s, tn * cn, 0),
                n,
            );
        }
        let mut j: usize = 0;
        while j < c
            invariant
                b == bases@,
                s == scalars@,
                n == b.len(),
                n == s.len(),
                cn == c,
                tn == t,
                j <= c,
                total.affine_of() == lin_comb::<G>(b, scaled_coeffs(s, tn * cn, j as nat), n),
            decreases c - j,
        {
            total.double_in_place();
            proof {
                lemma_pow2_adds(j as nat, 1);
                lemma2_to64();
                assert forall|i: int| 0 <= i < n implies #[trigger] scaled_coeffs(s, tn * cn, (j + 1) as nat)[i]
                    == scaled_coeffs(s, tn * cn, j as nat)[i] + scaled_coeffs(s, tn * cn, j as nat)[i] by {
                    let x = bigint_value(s[i]) / pow2(tn * cn);
                    let pj = pow2(j as nat);
                    assert(pow2((j + 1) as nat) * x == pj * x + pj * x) by (nonlinear_arith)
                        requires
                            pow2((j + 1) as nat) == pj * 2,
                    ;
                }
                lemma_lin_comb_add::<G>(
                    b,
                    scaled_coeffs(s, tn * cn, j as nat),
                    scaled_coeffs(s, tn * cn, j as nat),
                    scaled_coeffs(s, tn * cn, (j + 1) as nat),
                    n,
                );
            }
            j += 1;
        }
    }
    total.add_assign(&window_sums[0]);
    proof {
        assert forall|i: int| 0 <= i < n implies #[trigger] scalar_values(s)[i] == scaled_coeffs(
            s,
            cn,
            cn,
        )[i] + digit_coeffs(s, 0, cn)[i] by {
            lemma_horner_step(bigint_value(s[i]), 0, cn);
            lemma2_to64();
        }
        lemma_lin_comb_add::<G>(b, scaled_coeffs(s, cn, cn), digit_coeffs(s, 0, cn), scalar_values(s), n);
    }
    total
}

/// The sum of the products taken one pair at a time.
fn msm_small<G: CurveScalarMul>(bases: &[G::Affine], scalars: &[[u64; 4]]) -> (r: G)
    requires
        bases@.len() == scalars@.len(),
    ensures
        r.affine_of() == msm_spec::<G>(bases@, scalars@),
{
    let mut acc = G::zero();
    let mut j: usize = 0;
    while j < scalars.len()
        invariant
            bases@.len() == scalars@.len(),
            j <= scalars@.len(),
            acc.affine_of() == lin_comb::<G>(bases@, scalar_values(scalars@), j as nat),
        decreases scalars@.len() - j,
    {
        let p = G::mul(&bases[j], &scalars[j]);
        acc.add_assign(&p);
        j += 1;
    }
    acc
}

/// Variable-base multi-scalar multiplication.
pub struct VariableBaseMSM;

impl VariableBaseMSM {
    fn msm_inner<G: CurveScalarMul>(bases: &[G::Affine], scalars: &[[u64; 4]]) -> (r: G)
        requires
            bases@.len() == scalars@.len(),
            scalars_below(scalars@, G::scalar_bits() as nat),
        ensures
            r.affine_of() == msm_spec::<G>(bases@, scalars@),
    {
        if scalars.len() < SMALL_MSM {
            msm_small::<G>(bases, scalars)
        } else {
            let c = window_size(scalars.len());
            msm_with_window::<G>(bases, scalars, c)
        }
    }

    /// `Σ_i scalars[i] · bases[i]`, for scalars in canonical form (below
    /// `2^modulus_bits`). The two slices have the same length.
    pub fn multi_scalar_mul<G: CurveScalarMul>(bases: &[G::Affine], scalars: &[[u64; 4]]) -> (r: G)
        requires
            bases@.len() == scalars@.len(),
            scalars_below(scalars@, G::scalar_bits() as nat),
        ensures
            r.affine_of() == msm_spec::<G>(bases@, scalars@),
    {
        Self::msm_inner::<G>(bases, scalars)
    }
}

} // verus!
