//! Powers of two and the bits of a row index, shared by the whole crate.

use vstd::prelude::*;

verus! {

use vstd::arithmetic::power2::pow2;
use vstd::arithmetic::power2::lemma_pow2_unfold;
use vstd::arithmetic::power2::lemma_pow2_pos;
use vstd::arithmetic::power2::lemma_pow2_strictly_increases;

/// Bit `k` (0 = least significant) of the row index `i`.
pub open spec fn bit_of(i: int, k: nat) -> bool {
    (i / pow2(k) as int) % 2 == 1
}

/// The canonical variable assignment for row `i` of a function of `n`
/// variables: the big-endian binary expansion of `i`. Element 0 is the most
/// significant bit (variable `x1`), element `n - 1` the least significant
/// (variable `xn`).
pub open spec fn row_assignment(i: int, n: nat) -> Seq<bool> {
    Seq::new(n as nat, |j: int| bit_of(i, (n - 1 - j) as nat))
}

/// `pow2(e)` computed executably; arities stay at or below 31, so the result
/// fits in `usize`.
pub fn pow2_exec(e: u32) -> (r: usize)
    requires
        e <= 31,
    ensures
        r == pow2(e as nat),
{
    proof {
        lemma_pow2_le_usize_max(e as nat);
        vstd::arithmetic::power2::lemma2_to64();
    }
    let mut r: usize = 1;
    let mut k: u32 = 0;
    while k < e
        invariant
            k <= e,
            e <= 31,
            r == pow2(k as nat),
            pow2(e as nat) <= usize::MAX,
        decreases e - k,
    {
        proof {
            lemma_pow2_unfold((k + 1) as nat);
            if k + 1 < e {
                lemma_pow2_strictly_increases((k + 1) as nat, e as nat);
            }
        }
        r = r * 2;
        k = k + 1;
    }
    r
}

/// `pow2` never exceeds `usize::MAX` for exponents up to 31.
pub proof fn lemma_pow2_le_usize_max(e: nat)
    requires
        e <= 31,
    ensures
        pow2(e) <= usize::MAX,
{
    vstd::arithmetic::power2::lemma2_to64();
    if e < 31 {
        lemma_pow2_strictly_increases(e, 31);
    }
}

/// The exponent of a power of two is unique.
pub proof fn lemma_pow2_injective(a: nat, b: nat)
    requires
        pow2(a) == pow2(b),
    ensures
        a == b,
{
    if a < b {
        lemma_pow2_strictly_increases(a, b);
    } else if b < a {
        lemma_pow2_strictly_increases(b, a);
    }
}

} // verus!
