//! Exact integer helpers shared by the mesh and kinematics code: a rounded-up
//! integer square root and saturation of wide intermediates back into `i64`.

use vstd::prelude::*;

verus! {

/// Absolute value of a mathematical integer.
pub open spec fn abs_of(x: int) -> int {
    if x >= 0 {
        x
    } else {
        -x
    }
}

/// `x` negated when the sign `s` is negative; `times_sign(s, x) == s * x`
/// whenever `s` is `-1`, `0` or `1`, while staying linear for the solver.
pub open spec fn times_sign(s: int, x: int) -> int {
    if s == 1 {
        x
    } else if s == -1 {
        -x
    } else {
        0
    }
}

/// `s` is the least nonnegative integer whose square reaches `n`.
pub open spec fn is_sqrt_ceil(n: int, s: int) -> bool {
    &&& s >= 0
    &&& s * s >= n
    &&& (s == 0 || (s - 1) * (s - 1) < n)
}

/// The least nonnegative integer whose square reaches `n` (zero when `n <= 0`).
pub open spec fn sqrt_ceil(n: int) -> int {
    choose|s: int| is_sqrt_ceil(n, s)
}

/// At most one integer satisfies `is_sqrt_ceil` for a given `n`.
pub proof fn lemma_sqrt_ceil_unique(n: int, s1: int, s2: int)
    requires
        is_sqrt_ceil(n, s1),
        is_sqrt_ceil(n, s2),
    ensures
        s1 == s2,
{
    if s1 < s2 {
        assert(s1 * s1 <= (s2 - 1) * (s2 - 1)) by (nonlinear_arith)
            requires
                0 <= s1 <= s2 - 1,
        ;
    }
    if s2 < s1 {
        assert(s2 * s2 <= (s1 - 1) * (s1 - 1)) by (nonlinear_arith)
            requires
                0 <= s2 <= s1 - 1,
        ;
    }
}

/// A witness for `is_sqrt_ceil` pins down the value of `sqrt_ceil`.
pub proof fn lemma_sqrt_ceil_is(n: int, s: int)
    requires
        is_sqrt_ceil(n, s),
    ensures
        sqrt_ceil(n) == s,
{
    assert(is_sqrt_ceil(n, sqrt_ceil(n))) by {
        assert(exists|x: int| is_sqrt_ceil(n, x));
    }
    lemma_sqrt_ceil_unique(n, sqrt_ceil(n), s);
}

/// `sqrt_ceil` is well defined for every `n`: a satisfying integer exists.
pub proof fn lemma_sqrt_ceil_exists(n: int)
    ensures
        is_sqrt_ceil(n, sqrt_ceil(n)),
    decreases
        (if n > 0 { n } else { 0 }),
{
    if n <= 0 {
        assert(is_sqrt_ceil(n, 0));
    } else {
        lemma_sqrt_ceil_exists(n - 1);
        let s = sqrt_ceil(n - 1);
        if s * s >= n {
            assert(is_sqrt_ceil(n, s));
        } else {
            assert(s * s == n - 1);
            assert((s + 1) * (s + 1) >= n) by (nonlinear_arith)
                requires
                    s >= 0,
                    s * s == n - 1,
            ;
            assert(is_sqrt_ceil(n, s + 1));
        }
    }
    assert(is_sqrt_ceil(n, sqrt_ceil(n))) by {
        assert(exists|x: int| is_sqrt_ceil(n, x));
    }
}

/// Rounded-up integer square root: the least `s` with `s * s >= n`.
///
/// Rounding up rather than down is what lets the planar speed cap stay at or
/// below the cap: dividing by an over-approximated root can only shrink the
/// clamped components.
pub fn isqrt_ceil(n: u128) -> (s: u64)
    requires
        n <= u64::MAX * u64::MAX,
    ensures
        is_sqrt_ceil(n as int, s as int),
        sqrt_ceil(n as int) == s as int,
{
    let mut lo: u64 = 0;
    let mut hi: u64 = u64::MAX;
    proof {
        assert(u64::MAX * u64::MAX >= n);
    }
    while lo < hi
        invariant
            lo <= hi,
            hi as int * hi as int >= n as int,
            lo == 0 || (lo - 1) * (lo - 1) < n as int,
        decreases hi - lo,
    {
        let mid: u64 = lo + (hi - lo) / 2;
        proof {
            assert(mid as int * mid as int <= u64::MAX * u64::MAX) by (nonlinear_arith)
                requires
                    0 <= mid as int <= u64::MAX,
            ;
        }
        let sq: u128 = (mid as u128) * (mid as u128);
        if sq >= n {
            hi = mid;
        } else {
            lo = mid + 1;
        }
    }
    proof {
        lemma_sqrt_ceil_is(n as int, lo as int);
    }
    lo
}

/// Clamp a mathematical integer into the `i64` range.
pub open spec fn sat_i64(x: int) -> int {
    if x > i64::MAX as int {
        i64::MAX as int
    } else if x < i64::MIN as int {
        i64::MIN as int
    } else {
        x
    }
}

/// Saturating narrowing of a wide intermediate back to `i64`.
pub fn saturate_i64(x: i128) -> (r: i64)
    ensures
        r as int == sat_i64(x as int),
{
    if x > i64::MAX as i128 {
        i64::MAX
    } else if x < i64::MIN as i128 {
        i64::MIN
    } else {
        x as i64
    }
}

} // verus!
