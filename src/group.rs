use vstd::prelude::*;

verus! {

/// A projective curve point type together with the operations that the
/// multi-scalar multiplication engine uses.
///
/// The meaning of a projective value is the affine point it denotes
/// (`affine_of`); affine values compare by the point they are. The group law
/// on affine points is `sum`, with neutral element `identity`, and an
/// implementation proves that it is associative and commutative.
pub trait CurveProjective: Sized {
    type Affine;

    /// The affine point that this projective value denotes.
    spec fn affine_of(&self) -> Self::Affine;

    /// The group law on affine points.
    spec fn sum(a: Self::Affine, b: Self::Affine) -> Self::Affine;

    /// The neutral element of the group (the point at infinity).
    spec fn identity() -> Self::Affine;

    /// The bit length of the scalar field's modulus.
    spec fn scalar_bits() -> usize;

    proof fn lemma_sum_assoc(a: Self::Affine, b: Self::Affine, c: Self::Affine)
        ensures
            Self::sum(Self::sum(a, b), c) == Self::sum(a, Self::sum(b, c)),
    ;

    proof fn lemma_sum_comm(a: Self::Affine, b: Self::Affine)
        ensures
            Self::sum(a, b) == Self::sum(b, a),
    ;

    proof fn lemma_sum_identity(a: Self::Affine)
        ensures
            Self::sum(a, Self::identity()) == a,
    ;

    /// The point at infinity in projective form.
    fn zero() -> (r: Self)
        ensures
            r.affine_of() == Self::identity(),
    ;

    /// Mixed addition: a projective point plus an affine one.
    fn add_assign_mixed(&mut self, other: &Self::Affine)
        ensures
            final(self).affine_of() == Self::sum(old(self).affine_of(), *other),
    ;

    /// Projective addition.
    fn add_assign(&mut self, other: &Self)
        ensures
            final(self).affine_of() == Self::sum(old(self).affine_of(), other.affine_of()),
    ;

    fn double_in_place(&mut self)
        ensures
            final(self).affine_of() == Self::sum(old(self).affine_of(), old(self).affine_of()),
    ;

    /// Converts every point to affine form (with one shared inversion).
    fn batch_normalization_into_affine(v: Vec<Self>) -> (r: Vec<Self::Affine>)
        ensures
            r@.len() == v@.len(),
            forall|i: int| 0 <= i < v@.len() ==> r@[i] == #[trigger] v@[i].affine_of(),
    ;

    fn modulus_bits() -> (r: usize)
        ensures
            r == Self::scalar_bits(),
            0 < r <= 256,
    ;
}

/// Scalar multiplication, which the engine uses on small inputs.
pub trait CurveScalarMul: CurveProjective {
    /// Scalar multiplication of an affine point by a 256-bit integer given as
    /// four little-endian 64-bit limbs.
    fn mul(base: &Self::Affine, scalar: &[u64; 4]) -> (r: Self)
        ensures
            r.affine_of() == smul::<Self>(crate::scalar::bigint_value(*scalar), *base),
    ;
}

/// `k · a`: the point `a` added to itself `k` times.
pub open spec fn smul<G: CurveProjective>(k: nat, a: G::Affine) -> G::Affine
    decreases k,
{
    if k == 0 {
        G::identity()
    } else {
        G::sum(smul::<G>((k - 1) as nat, a), a)
    }
}

/// `Σ_{i < n} k_i · b_i`, the linear combination of the first `n` points of
/// `b` with coefficients `k`.
pub open spec fn lin_comb<G: CurveProjective>(b: Seq<G::Affine>, k: Seq<nat>, n: nat) -> G::Affine
    decreases n,
{
    if n == 0 {
        G::identity()
    } else {
        G::sum(lin_comb::<G>(b, k, (n - 1) as nat), smul::<G>(k[n - 1], b[n - 1]))
    }
}

pub proof fn lemma_identity_left<G: CurveProjective>(a: G::Affine)
    ensures
        G::sum(G::identity(), a) == a,
{
    G::lemma_sum_comm(G::identity(), a);
    G::lemma_sum_identity(a);
}

/// `(a + b) + (c + d) == (a + c) + (b + d)`.
pub proof fn lemma_sum_swap<G: CurveProjective>(a: G::Affine, b: G::Affine, c: G::Affine, d: G::Affine)
    ensures
        G::sum(G::sum(a, b), G::sum(c, d)) == G::sum(G::sum(a, c), G::sum(b, d)),
{
    G::lemma_sum_assoc(a, b, G::sum(c, d));
    G::lemma_sum_assoc(b, c, d);
    G::lemma_sum_comm(b, c);
    G::lemma_sum_assoc(c, b, d);
    G::lemma_sum_assoc(a, c, G::sum(b, d));
}

/// `(x + y) · a == x · a + y · a`.
pub proof fn lemma_smul_add<G: CurveProjective>(x: nat, y: nat, a: G::Affine)
    ensures
        smul::<G>(x + y, a) == G::sum(smul::<G>(x, a), smul::<G>(y, a)),
    decreases y,
{
    if y == 0 {
        G::lemma_sum_identity(smul::<G>(x, a));
        assert(x + y == x);
    } else {
        lemma_smul_add::<G>(x, (y - 1) as nat, a);
        assert((x + y - 1) as nat == x + (y - 1) as nat);
        G::lemma_sum_assoc(smul::<G>(x, a), smul::<G>((y - 1) as nat, a), a);
    }
}

pub proof fn lemma_smul_one<G: CurveProjective>(a: G::Affine)
    ensures
        smul::<G>(1, a) == a,
{
    assert(smul::<G>(0, a) == G::identity());
    lemma_identity_left::<G>(a);
}

/// Coefficients that agree below `n` give the same combination.
pub proof fn lemma_lin_comb_ext<G: CurveProjective>(b: Seq<G::Affine>, k1: Seq<nat>, k2: Seq<nat>, n: nat)
    requires
        forall|i: int| 0 <= i < n ==> k1[i] == k2[i],
    ensures
        lin_comb::<G>(b, k1, n) == lin_comb::<G>(b, k2, n),
    decreases n,
{
    if n > 0 {
        lemma_lin_comb_ext::<G>(b, k1, k2, (n - 1) as nat);
    }
}

/// All coefficients zero below `n`: the combination is the identity.
pub proof fn lemma_lin_comb_zero<G: CurveProjective>(b: Seq<G::Affine>, k: Seq<nat>, n: nat)
    requires
        forall|i: int| 0 <= i < n ==> k[i] == 0,
    ensures
        lin_comb::<G>(b, k, n) == G::identity(),
    decreases n,
{
    if n > 0 {
        lemma_lin_comb_zero::<G>(b, k, (n - 1) as nat);
        G::lemma_sum_identity(G::identity());
    }
}

/// The combination is additive in its coefficients.
pub proof fn lemma_lin_comb_add<G: CurveProjective>(
    b: Seq<G::Affine>,
    k1: Seq<nat>,
    k2: Seq<nat>,
    k3: Seq<nat>,
    n: nat,
)
    requires
        forall|i: int| 0 <= i < n ==> k3[i] == k1[i] + k2[i],
    ensures
        lin_comb::<G>(b, k3, n) == G::sum(lin_comb::<G>(b, k1, n), lin_comb::<G>(b, k2, n)),
    decreases n,
{
    if n == 0 {
        G::lemma_sum_identity(G::identity());
    } else {
        let m = (n - 1) as nat;
        lemma_lin_comb_add::<G>(b, k1, k2, k3, m);
        lemma_smul_add::<G>(k1[m as int], k2[m as int], b[m as int]);
        lemma_sum_swap::<G>(
            lin_comb::<G>(b, k1, m),
            lin_comb::<G>(b, k2, m),
            smul::<G>(k1[m as int], b[m as int]),
            smul::<G>(k2[m as int], b[m as int]),
        );
    }
}

/// Raising the coefficient at `j` by one adds `b[j]` once.
pub proof fn lemma_lin_comb_bump<G: CurveProjective>(b: Seq<G::Affine>, k1: Seq<nat>, k2: Seq<nat>, j: int, n: nat)
    requires
        0 <= j < n,
        k2[j] == k1[j] + 1,
        forall|i: int| 0 <= i < n && i != j ==> k2[i] == k1[i],
    ensures
        lin_comb::<G>(b, k2, n) == G::sum(lin_comb::<G>(b, k1, n), b[j]),
{
    let e = Seq::new(n, |i: int| if i == j { 1nat } else { 0nat });
    lemma_lin_comb_add::<G>(b, k1, e, k2, n);
    lemma_lin_comb_unit::<G>(b, e, j, n);
}

proof fn lemma_lin_comb_unit<G: CurveProjective>(b: Seq<G::Affine>, e: Seq<nat>, j: int, n: nat)
    requires
        0 <= j < n,
        forall|i: int| 0 <= i < n ==> e[i] == if i == j { 1nat } else { 0nat },
    ensures
        lin_comb::<G>(b, e, n) == b[j],
    decreases n,
{
    let m = (n - 1) as nat;
    if m == j {
        lemma_lin_comb_zero::<G>(b, e, m);
        lemma_smul_one::<G>(b[j]);
        lemma_identity_left::<G>(b[j]);
    } else {
        lemma_lin_comb_unit::<G>(b, e, j, m);
        G::lemma_sum_identity(lin_comb::<G>(b, e, m));
    }
}

} // verus!
