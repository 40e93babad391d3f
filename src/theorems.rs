use crate::group::{
    lemma_identity_left, lemma_lin_comb_bump, lemma_lin_comb_zero, lin_comb, smul, CurveProjective,
};
use crate::msm::{msm_spec, scalar_values};
use crate::scalar::{bigint_value, window_digit};
use vstd::arithmetic::div_mod::{lemma_mod_breakdown, lemma_small_mod};
use vstd::arithmetic::power2::{lemma_pow2_adds, lemma_pow2_pos, pow2};
use vstd::prelude::*;

verus! {

/// With every scalar zero the sum is the identity, whatever the bases.
pub proof fn lemma_msm_zero_scalars<G: CurveProjective>(bases: Seq<G::Affine>, scalars: Seq<[u64; 4]>)
    requires
        bases.len() == scalars.len(),
        forall|i: int| 0 <= i < scalars.len() ==> bigint_value(#[trigger] scalars[i]) == 0,
    ensures
        msm_spec::<G>(bases, scalars) == G::identity(),
{
    lemma_lin_comb_zero::<G>(bases, scalar_values(scalars), bases.len());
}

/// One pair: the sum is that scalar times that base.
pub proof fn lemma_msm_single_pair<G: CurveProjective>(bases: Seq<G::Affine>, scalars: Seq<[u64; 4]>)
    requires
        bases.len() == 1,
        scalars.len() == 1,
    ensures
        msm_spec::<G>(bases, scalars) == smul::<G>(bigint_value(scalars[0]), bases[0]),
{
    assert(lin_comb::<G>(bases, scalar_values(scalars), 0) == G::identity());
    lemma_identity_left::<G>(smul::<G>(bigint_value(scalars[0]), bases[0]));
}

/// A scalar equal to one adds its base exactly once: the sum is the sum
/// without that pair's contribution, plus the base.
pub proof fn lemma_msm_unit_scalar<G: CurveProjective>(bases: Seq<G::Affine>, scalars: Seq<[u64; 4]>, j: int)
    requires
        bases.len() == scalars.len(),
        0 <= j < scalars.len(),
        bigint_value(scalars[j]) == 1,
    ensures
        msm_spec::<G>(bases, scalars) == G::sum(
            lin_comb::<G>(bases, scalar_values(scalars).update(j, 0), bases.len()),
            bases[j],
        ),
{
    lemma_lin_comb_bump::<G>(
        bases,
        scalar_values(scalars).update(j, 0),
        scalar_values(scalars),
        j,
        bases.len(),
    );
}

/// The digits of `v` in `m` windows of `c` bits, each weighted by its
/// position: `Σ_{t < m} 2^{tc} · digit_t(v)`.
pub open spec fn recombine(v: nat, c: nat, m: nat) -> nat
    decreases m,
{
    if m == 0 {
        0
    } else {
        recombine(v, c, (m - 1) as nat) + pow2(((m - 1) * c) as nat) * window_digit(
            v,
            ((m - 1) * c) as nat,
            c,
        )
    }
}

proof fn lemma_recombine_is_low_bits(v: nat, c: nat, m: nat)
    ensures
        recombine(v, c, m) == v % pow2(m * c),
    decreases m,
{
    if m == 0 {
        vstd::arithmetic::power2::lemma2_to64();
    } else {
        let l = ((m - 1) * c) as nat;
        lemma_recombine_is_low_bits(v, c, (m - 1) as nat);
        lemma_pow2_pos(l);
        lemma_pow2_pos(c);
        assert(m * c == l + c) by (nonlinear_arith)
            requires
                l == (m - 1) * c,
                m >= 1,
        ;
        lemma_pow2_adds(l, c);
        lemma_mod_breakdown(v as int, pow2(l) as int, pow2(c) as int);
    }
}

/// The window width does not change what the windows add up to: for any two
/// widths whose windows cover the scalar, the weighted digits recombine to
/// the same integer, the scalar itself.
pub proof fn lemma_window_width_invariance(v: nat, c1: nat, m1: nat, c2: nat, m2: nat)
    requires
        v < pow2(m1 * c1),
        v < pow2(m2 * c2),
    ensures
        recombine(v, c1, m1) == v,
        recombine(v, c1, m1) == recombine(v, c2, m2),
{
    lemma_recombine_is_low_bits(v, c1, m1);
    lemma_recombine_is_low_bits(v, c2, m2);
    lemma_small_mod(v, pow2(m1 * c1));
    lemma_small_mod(v, pow2(m2 * c2));
}

/// Bases and coefficients that agree below `n` give the same combination.
proof fn lemma_lin_comb_congruent<G: CurveProjective>(
    b1: Seq<G::Affine>,
    b2: Seq<G::Affine>,
    k1: Seq<nat>,
    k2: Seq<nat>,
    n: nat,
)
    requires
        forall|i: int| 0 <= i < n ==> #[trigger] b1[i] == b2[i],
        forall|i: int| 0 <= i < n ==> #[trigger] k1[i] == k2[i],
    ensures
        lin_comb::<G>(b1, k1, n) == lin_comb::<G>(b2, k2, n),
    decreases n,
{
    if n > 0 {
        lemma_lin_comb_congruent::<G>(b1, b2, k1, k2, (n - 1) as nat);
    }
}

/// Taking out the pair at `j` takes out its product.
proof fn lemma_lin_comb_remove<G: CurveProjective>(b: Seq<G::Affine>, k: Seq<nat>, j: int)
    requires
        b.len() == k.len(),
        0 <= j < b.len(),
    ensures
        lin_comb::<G>(b, k, b.len()) == G::sum(
            lin_comb::<G>(b.remove(j), k.remove(j), (b.len() - 1) as nat),
            smul::<G>(k[j], b[j]),
        ),
    decreases b.len(),
{
    let n = b.len();
    let m = (n - 1) as nat;
    if j == m {
        lemma_lin_comb_congruent::<G>(b, b.remove(j), k, k.remove(j), m);
    } else {
        let bl = b.drop_last();
        let kl = k.drop_last();
        lemma_lin_comb_congruent::<G>(b, bl, k, kl, m);
        lemma_lin_comb_remove::<G>(bl, kl, j);
        let rest = lin_comb::<G>(bl.remove(j), kl.remove(j), (m - 1) as nat);
        lemma_lin_comb_congruent::<G>(bl.remove(j), b.remove(j), kl.remove(j), k.remove(j), (m - 1) as nat);
        let xj = smul::<G>(k[j], b[j]);
        let last = smul::<G>(k[m as int], b[m as int]);
        G::lemma_sum_assoc(rest, xj, last);
        G::lemma_sum_comm(xj, last);
        G::lemma_sum_assoc(rest, last, xj);
    }
}

/// The combination does not depend on the order of the pairs.
proof fn lemma_lin_comb_permutation<G: CurveProjective>(b: Seq<G::Affine>, k: Seq<nat>, p: Seq<int>)
    requires
        b.len() == k.len(),
        p.len() == b.len(),
        forall|i: int| 0 <= i < p.len() ==> 0 <= #[trigger] p[i] < p.len(),
        forall|i: int, l: int| 0 <= i < l < p.len() ==> p[i] != p[l],
    ensures
        lin_comb::<G>(
            Seq::new(b.len(), |i: int| b[p[i]]),
            Seq::new(b.len(), |i: int| k[p[i]]),
            b.len(),
        ) == lin_comb::<G>(b, k, b.len()),
    decreases b.len(),
{
    let n = b.len();
    if n > 0 {
        let m = (n - 1) as nat;
        let j = p[m as int];
        let q = Seq::new(m, |i: int| if p[i] < j { p[i] } else { p[i] - 1 });
        let br = b.remove(j);
        let kr = k.remove(j);
        assert forall|i: int| 0 <= i < m implies 0 <= #[trigger] q[i] < m by {
            assert(p[i] != p[m as int]);
        }
        assert forall|i: int, l: int| 0 <= i < l < m implies q[i] != q[l] by {
            assert(p[i] != p[l]);
        }
        lemma_lin_comb_permutation::<G>(br, kr, q);
        let pb = Seq::new(n, |i: int| b[p[i]]);
        let pk = Seq::new(n, |i: int| k[p[i]]);
        assert forall|i: int| 0 <= i < m implies pb[i] == Seq::new(m, |x: int| br[q[x]])[i] && pk[i]
            == Seq::new(m, |x: int| kr[q[x]])[i] by {
            assert(p[i] != p[m as int]);
        }
        lemma_lin_comb_congruent::<G>(
            pb,
            Seq::new(m, |x: int| br[q[x]]),
            pk,
            Seq::new(m, |x: int| kr[q[x]]),
            m,
        );
        lemma_lin_comb_remove::<G>(b, k, j);
    }
}

/// Reordering the pairs (bases and scalars alike, by one permutation `p`)
/// leaves the sum unchanged.
pub proof fn lemma_msm_permutation<G: CurveProjective>(bases: Seq<G::Affine>, scalars: Seq<[u64; 4]>, p: Seq<int>)
    requires
        bases.len() == scalars.len(),
        p.len() == bases.len(),
        forall|i: int| 0 <= i < p.len() ==> 0 <= #[trigger] p[i] < p.len(),
        forall|i: int, l: int| 0 <= i < l < p.len() ==> p[i] != p[l],
    ensures
        msm_spec::<G>(
            Seq::new(bases.len(), |i: int| bases[p[i]]),
            Seq::new(scalars.len(), |i: int| scalars[p[i]]),
        ) == msm_spec::<G>(bases, scalars),
{
    let n = bases.len();
    let k = scalar_values(scalars);
    lemma_lin_comb_permutation::<G>(bases, k, p);
    lemma_lin_comb_congruent::<G>(
        Seq::new(n, |i: int| bases[p[i]]),
        Seq::new(n, |i: int| bases[p[i]]),
        scalar_values(Seq::new(n, |i: int| scalars[p[i]])),
        Seq::new(n, |i: int| k[p[i]]),
        n,
    );
}

} // verus!
