//! Integer arithmetic helpers for the layout solver: integer square root,
//! round-to-nearest division and round-to-nearest-even scaling.

use vstd::prelude::*;

verus! {

/// `r` is the integer square root of `n`.
pub open spec fn is_sqrt(r: int, n: int) -> bool {
    0 <= r && r * r <= n && n < (r + 1) * (r + 1)
}

/// The integer square root of `n`: the largest `r` with `r * r <= n`.
pub closed spec fn sqrt(n: int) -> int {
    choose|r: int| is_sqrt(r, n)
}

/// The integer square root is unique.
proof fn lemma_sqrt_unique(r1: int, r2: int, n: int)
    requires
        is_sqrt(r1, n),
        is_sqrt(r2, n),
    ensures
        r1 == r2,
{
    if r1 < r2 {
        assert((r1 + 1) * (r1 + 1) <= r2 * r2) by (nonlinear_arith)
            requires 0 <= r1 && r1 < r2;
    }
    if r2 < r1 {
        assert((r2 + 1) * (r2 + 1) <= r1 * r1) by (nonlinear_arith)
            requires 0 <= r2 && r2 < r1;
    }
}

/// Relates `sqrt(n)` to any witness of `is_sqrt`.
pub proof fn lemma_sqrt_is(r: int, n: int)
    requires
        is_sqrt(r, n),
    ensures
        sqrt(n) == r,
{
    assert(is_sqrt(sqrt(n), n)) by {
        assert(exists|x: int| is_sqrt(x, n));
    }
    lemma_sqrt_unique(sqrt(n), r, n);
}

/// Integer square root by upward search.
pub fn isqrt64(n: u64) -> (r: u64)
    requires
        n <= 0x4_0000_0000_0000,
    ensures
        is_sqrt(r as int, n as int),
        r as int == sqrt(n as int),
{
    let mut r: u64 = 0;
    let mut sq: u64 = 1;
    while sq <= n
        invariant
            n <= 0x4_0000_0000_0000,
            r * r <= n,
            r <= 0x200_0000,
            sq == (r + 1) * (r + 1),
        decreases n - r * r,
    {
        proof {
            assert(r * r < (r + 1) * (r + 1)) by (nonlinear_arith)
                requires 0 <= r;
        }
        r = r + 1;
        proof {
            assert(r * r <= n ==> r <= 0x200_0000) by (nonlinear_arith)
                requires n <= 0x4_0000_0000_0000;
            assert((r + 1) * (r + 1) <= 0x4_0000_4000_0001) by (nonlinear_arith)
                requires r <= 0x200_0000;
        }
        sq = (r + 1) * (r + 1);
    }
    proof {
        lemma_sqrt_is(r as int, n as int);
    }
    r
}

/// `a / b` rounded to the nearest integer, halves rounding up.
pub open spec fn spec_round_div(a: int, b: int) -> int {
    (2 * a + b) / (2 * b)
}

/// Division rounded to nearest, halves up.
pub fn round_div(a: u64, b: u64) -> (r: u64)
    requires
        1 <= b,
        a <= 0x1000_0000_0000_0000,
        b <= 0x1000_0000_0000_0000,
    ensures
        r as int == spec_round_div(a as int, b as int),
{
    (2 * a + b) / (2 * b)
}

/// The multiple of two nearest to `num / den` (halves of the half-quotient
/// rounding up): the even-dimension rounding the solver applies after
/// scaling, since the crop and export pipeline wants even sizes.
pub open spec fn spec_nearest_even(num: int, den: int) -> int {
    2 * ((num + den) / (2 * den))
}

/// `num / den` rounded to the nearest even integer.
pub fn nearest_even_div(num: u64, den: u64) -> (r: u64)
    requires
        1 <= den,
        num <= 0x1000_0000_0000_0000,
        den <= 0x1000_0000_0000_0000,
    ensures
        r as int == spec_nearest_even(num as int, den as int),
{
    2 * ((num + den) / (2 * den))
}

/// The nearest-even rounding of a quotient never exceeds the numerator
/// rounded up to even when the denominator divides more coarsely; in
/// particular scaling by a factor at most one keeps the result at most
/// one above the original dimension.
pub proof fn lemma_nearest_even_le(w: int, num: int, den: int)
    requires
        1 <= den,
        0 <= w,
        num <= w * den,
    ensures
        spec_nearest_even(num, den) <= w + 1,
{
    assert((num + den) / (2 * den) <= (w * den + den) / (2 * den)) by (nonlinear_arith)
        requires 1 <= den && num <= w * den;
    assert((w * den + den) / (2 * den) == ((w + 1) * den) / (2 * den)) by (nonlinear_arith);
    assert(((w + 1) * den) / (2 * den) <= (w + 1) / 2) by (nonlinear_arith)
        requires 1 <= den && 0 <= w;
    assert(2 * ((w + 1) / 2) <= w + 1);
}

} // verus!
