use vstd::arithmetic::div_mod::lemma_mod_multiples_vanish;
use vstd::arithmetic::mul::lemma_mul_is_associative;
use vstd::arithmetic::power2::{lemma_pow2_adds, lemma_pow2_pos, pow2};
use vstd::bits::lemma_u64_shl_is_mul;
use vstd::prelude::*;

verus! {

/// The integer that four little-endian 64-bit limbs stand for.
pub open spec fn bigint_value(l: [u64; 4]) -> nat {
    (l[0] + pow2(64) * (l[1] + pow2(64) * (l[2] + pow2(64) * l[3]))) as nat
}

/// The limbs of zero.
pub open spec fn is_zero_limbs(l: [u64; 4]) -> bool {
    l[0] == 0 && l[1] == 0 && l[2] == 0 && l[3] == 0
}

/// The limbs of one.
pub open spec fn is_one_limbs(l: [u64; 4]) -> bool {
    l[0] == 1 && l[1] == 0 && l[2] == 0 && l[3] == 0
}

/// The `c`-bit digit of `s` that starts at bit `w`: `(s >> w) mod 2^c`.
pub open spec fn window_digit(s: nat, w: nat, c: nat) -> nat {
    (s / pow2(w)) % pow2(c)
}

/// Relies on snarkvm_utilities' `BigInteger256::divn`: it shifts the integer
/// right by `n` bits (every bit gone once `n` reaches 256).
#[verifier::external_body]
fn shift_right(limbs: [u64; 4], n: u32) -> (r: [u64; 4])
    ensures
        bigint_value(r) == bigint_value(limbs) / pow2(n as nat),
{
    let mut b = snarkvm_utilities::biginteger::BigInteger256(limbs);
    snarkvm_utilities::biginteger::BigInteger::divn(&mut b, n);
    b.0
}

proof fn lemma_low_limb_digit(l: [u64; 4], c: nat)
    requires
        c <= 64,
    ensures
        bigint_value(l) % pow2(c) == (l[0] as nat) % pow2(c),
{
    let hi: int = l[1] + pow2(64) * (l[2] + pow2(64) * l[3]);
    let d = (64 - c) as nat;
    lemma_pow2_adds(c, d);
    assert(c + d == 64);
    lemma_pow2_pos(c);
    lemma_mul_is_associative(pow2(c) as int, pow2(d) as int, hi);
    lemma_mod_multiples_vanish(pow2(d) * hi, l[0] as int, pow2(c) as int);
}

/// Whether the integer is zero.
pub fn is_zero(s: &[u64; 4]) -> (r: bool)
    ensures
        r == is_zero_limbs(*s),
        r ==> bigint_value(*s) == 0,
{
    s[0] == 0 && s[1] == 0 && s[2] == 0 && s[3] == 0
}

/// Whether the integer is one (the canonical form of the field's one).
pub fn is_one(s: &[u64; 4]) -> (r: bool)
    ensures
        r == is_one_limbs(*s),
        r ==> bigint_value(*s) == 1,
{
    s[0] == 1 && s[1] == 0 && s[2] == 0 && s[3] == 0
}

/// The digits of zero are zero; one has the digit one in the lowest window
/// only.
pub proof fn lemma_digit_zero_one(w: nat, c: nat)
    requires
        c >= 1,
    ensures
        window_digit(0, w, c) == 0,
        window_digit(1, w, c) == if w == 0 { 1nat } else { 0nat },
{
    let pw = pow2(w);
    let pc = pow2(c);
    lemma_pow2_pos(w);
    vstd::arithmetic::power2::lemma_pow2_strictly_increases(0, c);
    vstd::arithmetic::power2::lemma2_to64();
    assert(0nat / pw == 0 && 0nat % pc == 0) by (nonlinear_arith)
        requires
            pw > 0,
            pc > 1,
    ;
    assert(1nat % pc == 1) by (nonlinear_arith)
        requires
            pc > 1,
    ;
    if w > 0 {
        vstd::arithmetic::power2::lemma_pow2_strictly_increases(0, w);
        assert(1nat / pw == 0) by (nonlinear_arith)
            requires
                pw > 1,
        ;
    }
}

/// The `c`-bit digit of `scalar` that starts at bit `w`.
pub fn digit_at(scalar: &[u64; 4], w: u32, c: u32) -> (d: u64)
    requires
        1 <= c <= 63,
    ensures
        d as nat == window_digit(bigint_value(*scalar), w as nat, c as nat),
        (d as nat) < pow2(c as nat),
{
    let r = shift_right(*scalar, w);
    proof {
        vstd::bits::lemma_u64_pow2_no_overflow(c as nat);
        lemma_u64_shl_is_mul(1, c as u64);
        lemma_low_limb_digit(r, c as nat);
    }
    let m: u64 = 1u64 << (c as u64);
    r[0] % m
}

} // verus!
