//! Integer arithmetic the physics uses: floor square root, division that
//! truncates toward zero (matching the machine's signed division), and
//! clamping.

use vstd::prelude::*;

verus! {

/// The floor of the square root of a non-negative value: the unique `r >= 0`
/// with `r * r <= x < (r + 1) * (r + 1)`.
pub open spec fn spec_isqrt(x: int) -> int {
    choose|r: int| r >= 0 && #[trigger] (r * r) <= x < (r + 1) * (r + 1)
}

/// A floor square root exists for every non-negative value and no value has
/// two, so `spec_isqrt` names the witness exactly.
pub proof fn lemma_isqrt_is(x: int, r: int)
    requires
        r >= 0,
        r * r <= x,
        x < (r + 1) * (r + 1),
    ensures
        spec_isqrt(x) == r,
{
    let picked = spec_isqrt(x);
    assert(picked >= 0 && picked * picked <= x < (picked + 1) * (picked + 1));
    if picked < r {
        assert((picked + 1) * (picked + 1) <= r * r) by (nonlinear_arith)
            requires
                0 <= picked + 1 <= r,
        ;
    }
    if picked > r {
        assert((r + 1) * (r + 1) <= picked * picked) by (nonlinear_arith)
            requires
                0 <= r + 1 <= picked,
        ;
    }
}

/// Squares grow with their argument.
pub proof fn lemma_square_monotone(a: int, b: int)
    requires
        0 <= a <= b,
    ensures
        a * a <= b * b,
{
    assert(a * a <= b * b) by (nonlinear_arith)
        requires
            0 <= a <= b,
    ;
}

/// The floor square root of any non-negative 64-bit value, by bisection.
pub fn isqrt(x: i64) -> (r: i64)
    requires
        x >= 0,
    ensures
        0 <= r,
        r * r <= x,
        x < (r + 1) * (r + 1),
        r == spec_isqrt(x as int),
{
    let xu = x as u64;
    let mut lo: u64 = 0;
    let mut hi: u64 = 0xFFFF_FFFF;
    proof {
        assert((0xFFFF_FFFFu64 * 0xFFFF_FFFFu64) as int > x as int) by (nonlinear_arith)
            requires
                x < 0x8000_0000_0000_0000,
        ;
    }
    while hi - lo > 1
        invariant
            lo < hi <= 0xFFFF_FFFF,
            x >= 0,
            xu == x as u64,
            lo * lo <= xu,
            xu < hi * hi,
        decreases hi - lo,
    {
        let mid = lo + (hi - lo) / 2;
        proof {
            assert(mid * mid <= 0xFFFF_FFFFu64 * 0xFFFF_FFFFu64) by (nonlinear_arith)
                requires
                    mid <= 0xFFFF_FFFFu64,
            ;
        }
        if mid * mid <= xu {
            lo = mid;
        } else {
            hi = mid;
        }
    }
    let r = lo as i64;
    proof {
        assert(hi == lo + 1);
        assert(r * r <= x && x < (r + 1) * (r + 1));
        lemma_isqrt_is(x as int, r as int);
    }
    r
}

/// Division truncating toward zero, the machine's signed division.
pub open spec fn spec_tdiv(a: int, b: int) -> int
    recommends
        b > 0,
{
    if a >= 0 {
        a / b
    } else {
        -((-a) / b)
    }
}

/// The magnitude of a truncated quotient is at most `c` when the dividend's
/// magnitude is at most `b * c`.
pub proof fn lemma_tdiv_bound(a: int, b: int, c: int)
    requires
        b > 0,
        c >= 0,
        -(b * c) <= a <= b * c,
    ensures
        -c <= spec_tdiv(a, b) <= c,
{
    if a >= 0 {
        assert(a / b <= c) by (nonlinear_arith)
            requires
                b > 0 && c >= 0 && a <= b * c && a >= 0,
        ;
        assert(a / b >= 0) by (nonlinear_arith)
            requires
                b > 0 && a >= 0,
        ;
    } else {
        assert((-a) / b <= c) by (nonlinear_arith)
            requires
                b > 0 && c >= 0 && -a <= b * c && -a >= 0,
        ;
        assert((-a) / b >= 0) by (nonlinear_arith)
            requires
                b > 0 && -a >= 0,
        ;
    }
}

/// A truncated quotient keeps its dividend's sign.
pub proof fn lemma_tdiv_sign(a: int, b: int)
    requires
        b > 0,
    ensures
        a >= 0 ==> spec_tdiv(a, b) >= 0,
        a <= 0 ==> spec_tdiv(a, b) <= 0,
{
    if a >= 0 {
        assert(a / b >= 0) by (nonlinear_arith)
            requires
                a >= 0 && b > 0,
        ;
    } else {
        assert((-a) / b >= 0) by (nonlinear_arith)
            requires
                a < 0 && b > 0,
        ;
    }
}

/// Division truncating toward zero.
pub fn div_trunc(a: i64, b: i64) -> (r: i64)
    requires
        b > 0,
        a > i64::MIN,
    ensures
        r == spec_tdiv(a as int, b as int),
        a >= 0 ==> 0 <= r <= a,
        a < 0 ==> a <= r <= 0,
{
    proof {
        if a >= 0 {
            assert(a as int / b as int <= a) by (nonlinear_arith)
                requires
                    b > 0 && a >= 0,
            ;
            assert(a as int / b as int >= 0) by (nonlinear_arith)
                requires
                    b > 0 && a >= 0,
            ;
        } else {
            assert((-a as int) / b as int <= -a) by (nonlinear_arith)
                requires
                    b > 0 && a < 0,
            ;
            assert((-a as int) / b as int >= 0) by (nonlinear_arith)
                requires
                    b > 0 && a < 0,
            ;
        }
    }
    if a >= 0 {
        let q = (a as u64) / (b as u64);
        proof {
            assert((a as u64) / (b as u64) == a as int / b as int) by (nonlinear_arith)
                requires
                    a >= 0 && b > 0 && a as u64 == a as int && b as u64 == b as int,
        ;
        }
        q as i64
    } else {
        let q = ((-a) as u64) / (b as u64);
        proof {
            assert(((-a) as u64) / (b as u64) == (-(a as int)) / (b as int)) by (nonlinear_arith)
                requires
                    a < 0 && a > i64::MIN && b > 0 && (-a) as u64 == -(a as int) && b as u64 == b as int,
        ;
        }
        -(q as i64)
    }
}

/// Division rounding toward negative infinity, for a positive divisor:
/// exactly mathematical integer division.
pub fn floor_div(a: i64, b: i64) -> (r: i64)
    requires
        0 < b <= 0x4000_0000_0000,
        -0x4000_0000_0000 <= a <= 0x4000_0000_0000,
    ensures
        r == a as int / b as int,
        -0x4000_0000_0000 <= r <= 0x4000_0000_0000,
{
    let ghost ai = a as int;
    let ghost bi = b as int;
    if a >= 0 {
        let q = (a as u64) / (b as u64);
        proof {
            assert(q as int == ai / bi);
            assert(0 <= ai / bi <= ai) by (nonlinear_arith)
                requires
                    ai >= 0 && bi > 0,
            ;
        }
        q as i64
    } else {
        let m = (-a) as u64;
        let up = (m + (b - 1) as u64) / (b as u64);
        proof {
            assert(up as int == (m as int + bi - 1) / bi);
            assert(ai / bi == -((m as int + bi - 1) / bi)) by (nonlinear_arith)
                requires
                    ai < 0 && bi > 0 && m as int == -ai,
            ;
            assert(0 <= (m as int + bi - 1) / bi <= m as int) by (nonlinear_arith)
                requires
                    0 < m as int && bi >= 1,
            ;
        }
        -(up as i64)
    }
}

/// The value clamped to `[lo, hi]`.
pub open spec fn spec_clamp(x: int, lo: int, hi: int) -> int {
    if x < lo {
        lo
    } else if x > hi {
        hi
    } else {
        x
    }
}

/// Clamps a value to `[lo, hi]`.
pub fn clamp_i64(x: i64, lo: i64, hi: i64) -> (r: i64)
    requires
        lo <= hi,
    ensures
        r == spec_clamp(x as int, lo as int, hi as int),
{
    if x < lo {
        lo
    } else if x > hi {
        hi
    } else {
        x
    }
}

} // verus!
