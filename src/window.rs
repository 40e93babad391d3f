use vstd::arithmetic::power2::{lemma2_to64, lemma_pow2_adds, lemma_pow2_strictly_increases, pow2};
use vstd::prelude::*;

verus! {

/// Below this many pairs the window width is fixed.
pub const SMALL_INPUT: usize = 32;

/// The fixed window width for small inputs.
pub const SMALL_WINDOW: usize = 3;

/// The window width for `n` pairs: 3 below 32 pairs, else
/// `ceil(2/3 · log2(n) + 2)`, that is `2 + k` for the least `k` with
/// `8^k >= n^2`.
pub open spec fn is_window_size(n: nat, c: nat) -> bool {
    if n < 32 {
        c == 3
    } else {
        c >= 3 && pow2(3 * (c - 2) as nat) >= n * n && pow2(3 * (c - 3) as nat) < n * n
    }
}

/// Chooses the window width `c` for `n` (base, scalar) pairs.
pub fn window_size(n: usize) -> (c: usize)
    ensures
        is_window_size(n as nat, c as nat),
        1 <= c <= 45,
        c < usize::BITS,
{
    if n < SMALL_INPUT {
        return SMALL_WINDOW;
    }
    proof {
        lemma2_to64();
        lemma_pow2_adds(64, 64);
        assert((n as nat) * (n as nat) < pow2(128)) by (nonlinear_arith)
            requires
                n < pow2(64),
                pow2(128) == pow2(64) * pow2(64),
        ;
    }
    let nn: u128 = (n as u128) * (n as u128);
    let mut k: usize = 0;
    let mut p: u128 = 1;
    while k < 42 && p < nn
        invariant
            k <= 42,
            p as nat == pow2(3 * k as nat),
            k > 0 ==> pow2(3 * (k - 1) as nat) < nn,
            nn as nat == (n as nat) * (n as nat),
            nn < pow2(128),
        decreases 42 - k,
    {
        proof {
            lemma_pow2_adds(3 * k as nat, 3);
            lemma2_to64();
            lemma_pow2_strictly_increases(3 * k as nat + 3, 128);
            lemma_pow2_adds(64, 64);
        }
        p = p * 8;
        k = k + 1;
        assert(3 * k as nat == 3 * (k - 1) as nat + 3);
    }
    if p < nn {
        proof {
            assert(k == 42);
            lemma_pow2_strictly_increases(128, 129);
        }
        k = 43;
    }
    proof {
        if k == 0 {
            lemma2_to64();
            assert(nn >= 1024) by (nonlinear_arith)
                requires
                    nn == (n as nat) * (n as nat),
                    n >= 32,
            ;
        }
        if k <= 3 {
            lemma2_to64();
            assert(pow2(9) == 512);
            if k < 3 {
                lemma_pow2_strictly_increases(3 * k as nat, 9);
            }
            assert(nn >= 1024) by (nonlinear_arith)
                requires
                    nn == (n as nat) * (n as nat),
                    n >= 32,
            ;
        }
    }
    proof {
        if usize::BITS == 32 && k > 0 {
            lemma2_to64();
            assert(nn < pow2(64)) by (nonlinear_arith)
                requires
                    nn == (n as nat) * (n as nat),
                    n < 0x1_0000_0000,
                    pow2(64) == 0x1_0000_0000 * 0x1_0000_0000,
            ;
            if 3 * (k - 1) as nat > 64 {
                lemma_pow2_strictly_increases(64, 3 * (k - 1) as nat);
            }
        }
    }
    k + 2
}

} // verus!
