//! Fixed-point angles and trigonometry.
//!
//! An angle is an `i64` measured in 1/65536 of a full turn, normally kept in
//! `[0, 65536)`.  Direction components are `i64` values in `[-1000, 1000]`,
//! representing thousandths of a unit vector.  Sine is the classic parabola
//! approximation, exact at every quarter turn, which is all the renderer's
//! contracts rely on; in between it is a documented approximation of the
//! real sine.

use vstd::prelude::*;

verus! {

use vstd::arithmetic::div_mod::lemma_mod_add_multiples_vanish;
use vstd::arithmetic::div_mod::lemma_small_mod;

/// One full turn in angle units.
pub const ANGLE_FULL: i64 = 65536;
/// Half a turn in angle units.
pub const ANGLE_HALF: i64 = 32768;
/// A quarter turn in angle units.
pub const ANGLE_QUARTER: i64 = 16384;
/// Scale of direction components: a unit vector component is `DIR_SCALE`.
pub const DIR_SCALE: i64 = 1000;

/// Parabolic sine on the first half turn, scaled to `[-1000, 1000]`.
pub open spec fn spec_sin_half(a: int) -> int {
    (4 * a * (32768 - a) * 1000) / 1073741824
}

/// Sine of a normalized angle, in thousandths.
pub open spec fn spec_sin(a: int) -> int {
    if a <= 32768 {
        spec_sin_half(a)
    } else {
        -spec_sin_half(a - 32768)
    }
}

/// Cosine of a normalized angle, in thousandths.
pub open spec fn spec_cos(a: int) -> int {
    spec_sin((a + 16384) % 65536)
}

proof fn lemma_sin_half_range(a: int)
    requires
        0 <= a <= 32768,
    ensures
        0 <= spec_sin_half(a) <= 1000,
        a == 0 ==> spec_sin_half(a) == 0,
        a == 32768 ==> spec_sin_half(a) == 0,
        a == 16384 ==> spec_sin_half(a) == 1000,
{
    assert(0 <= 4 * a * (32768 - a) * 1000 <= 4 * 268435456 * 1000) by (nonlinear_arith)
        requires
            0 <= a <= 32768,
    ;
    if a == 0 {
        assert(4 * a * (32768 - a) * 1000 == 0) by (nonlinear_arith)
            requires
                a == 0,
        ;
    }
    if a == 16384 {
        assert(4 * a * (32768 - a) * 1000 == 1073741824000) by (nonlinear_arith)
            requires
                a == 16384,
        ;
    }
    if a == 32768 {
        assert(4 * a * (32768 - a) * 1000 == 0) by (nonlinear_arith)
            requires
                a == 32768,
        ;
    }
}

/// The sine of any normalized angle lies in `[-1000, 1000]`, and is exact at
/// the four quarter-turn points.
pub proof fn lemma_sin_range(a: int)
    requires
        0 <= a < 65536,
    ensures
        -1000 <= spec_sin(a) <= 1000,
        a == 0 ==> spec_sin(a) == 0,
        a == 16384 ==> spec_sin(a) == 1000,
        a == 32768 ==> spec_sin(a) == 0,
        a == 49152 ==> spec_sin(a) == -1000,
{
    if a <= 32768 {
        lemma_sin_half_range(a);
    } else {
        lemma_sin_half_range(a - 32768);
    }
}

/// Sine of an angle in `[0, ANGLE_FULL)`, in thousandths of a unit.
pub fn sin_fx(a: i64) -> (r: i64)
    requires
        0 <= a < 65536,
    ensures
        r == spec_sin(a as int),
        -1000 <= r <= 1000,
{
    proof {
        lemma_sin_range(a as int);
    }
    if a <= 32768 {
        proof {
            lemma_sin_half_range(a as int);
            assert(4 * (a as int) * (32768 - a as int) * 1000 <= 1073741824000) by (nonlinear_arith)
                requires
                    0 <= a as int <= 32768,
            ;
            assert(0 <= 4 * (a as int) * (32768 - a as int) * 1000) by (nonlinear_arith)
                requires
                    0 <= a as int <= 32768,
            ;
        }
        (4 * a * (32768 - a) * 1000) / 1073741824
    } else {
        let b = a - 32768;
        proof {
            lemma_sin_half_range(b as int);
            assert(4 * (b as int) * (32768 - b as int) * 1000 <= 1073741824000) by (nonlinear_arith)
                requires
                    0 <= b as int <= 32768,
            ;
            assert(0 <= 4 * (b as int) * (32768 - b as int) * 1000) by (nonlinear_arith)
                requires
                    0 <= b as int <= 32768,
            ;
        }
        -((4 * b * (32768 - b) * 1000) / 1073741824)
    }
}

/// Cosine of an angle in `[0, ANGLE_FULL)`, in thousandths of a unit.
pub fn cos_fx(a: i64) -> (r: i64)
    requires
        0 <= a < 65536,
    ensures
        r == spec_cos(a as int),
        -1000 <= r <= 1000,
{
    let b = if a + 16384 >= 65536 {
        a + 16384 - 65536
    } else {
        a + 16384
    };
    proof {
        if a + 16384 >= 65536 {
            lemma_mod_add_multiples_vanish((a + 16384 - 65536) as int, 65536);
            lemma_small_mod((a + 16384 - 65536) as nat, 65536);
        } else {
            lemma_small_mod((a + 16384) as nat, 65536);
        }
    }
    sin_fx(b)
}

/// First-quadrant angle of a vector with non-negative components: a linear
/// octant approximation, exact on the axes and the diagonal.
pub open spec fn spec_octant(ax: int, ay: int) -> int {
    if ay <= ax {
        if ax == 0 {
            0
        } else {
            (ay * 8192) / ax
        }
    } else {
        16384 - (ax * 8192) / ay
    }
}

/// Angle of the vector `(x, y)` in angle units, in `[0, 65536)`: the
/// quadrant is exact, within it the octant approximation of `spec_octant`.
pub open spec fn spec_atan2(y: int, x: int) -> int {
    let ax = if x >= 0 {
        x
    } else {
        -x
    };
    let ay = if y >= 0 {
        y
    } else {
        -y
    };
    let t = spec_octant(ax, ay);
    if x >= 0 && y >= 0 {
        t
    } else if x < 0 && y >= 0 {
        32768 - t
    } else if x < 0 {
        32768 + t
    } else {
        (65536 - t) % 65536
    }
}

/// The octant approximation stays within the first quarter turn.
pub proof fn lemma_octant_range(ax: int, ay: int)
    requires
        0 <= ax,
        0 <= ay,
    ensures
        0 <= spec_octant(ax, ay) <= 16384,
{
    if ay <= ax {
        if ax != 0 {
            assert(0 <= (ay * 8192) / ax <= 8192) by (nonlinear_arith)
                requires
                    0 <= ay <= ax,
                    0 < ax,
            ;
        }
    } else {
        assert(0 <= (ax * 8192) / ay <= 8192) by (nonlinear_arith)
            requires
                0 <= ax < ay,
        ;
    }
}

/// The angle of any vector is normalized.
pub proof fn lemma_atan2_range(y: int, x: int)
    ensures
        0 <= spec_atan2(y, x) < 65536,
{
    let ax = if x >= 0 {
        x
    } else {
        -x
    };
    let ay = if y >= 0 {
        y
    } else {
        -y
    };
    lemma_octant_range(ax, ay);
    let t = spec_octant(ax, ay);
    if !(x >= 0 && y >= 0) && !(x < 0 && y >= 0) && !(x < 0) {
        if t == 0 {
            assert((65536 - t) % 65536 == 0);
        } else {
            lemma_small_mod((65536 - t) as nat, 65536);
        }
    }
}

/// Angle of the vector `(x, y)` in angle units.
pub fn atan2_fx(y: i64, x: i64) -> (r: i64)
    requires
        -4000000000 <= x <= 4000000000,
        -4000000000 <= y <= 4000000000,
    ensures
        r == spec_atan2(y as int, x as int),
        0 <= r < 65536,
{
    proof {
        lemma_atan2_range(y as int, x as int);
    }
    let ax = if x >= 0 {
        x
    } else {
        -x
    };
    let ay = if y >= 0 {
        y
    } else {
        -y
    };
    proof {
        lemma_octant_range(ax as int, ay as int);
    }
    let t = if ay <= ax {
        if ax == 0 {
            0
        } else {
            (ay * 8192) / ax
        }
    } else {
        16384 - (ax * 8192) / ay
    };
    if x >= 0 && y >= 0 {
        t
    } else if x < 0 && y >= 0 {
        32768 - t
    } else if x < 0 {
        32768 + t
    } else {
        if t == 0 {
            0
        } else {
            proof {
                lemma_small_mod((65536 - t) as nat, 65536);
            }
            65536 - t
        }
    }
}

/// Signed difference `a - b` of two angles, folded into
/// `[-32768, 32768)`: the shortest turn from `b` to `a`.
pub open spec fn spec_angle_diff(a: int, b: int) -> int {
    let d = (a - b) % 65536;
    if d >= 32768 {
        d - 65536
    } else {
        d
    }
}

/// Signed difference of two angles, folded into `[-32768, 32768)`.
pub fn angle_diff_fx(a: i64, b: i64) -> (r: i64)
    requires
        -2000000000 <= a <= 2000000000,
        -2000000000 <= b <= 2000000000,
    ensures
        r == spec_angle_diff(a as int, b as int),
        -32768 <= r < 32768,
{
    let d = normalize_angle(a - b);
    if d >= 32768 {
        d - 65536
    } else {
        d
    }
}

/// `r` is the integer square root of `n`.
pub open spec fn is_sqrt(n: int, r: int) -> bool {
    0 <= r && r * r <= n && n < (r + 1) * (r + 1)
}

/// The integer square root: the unique `r` with
/// `r * r <= n < (r + 1) * (r + 1)`.
pub open spec fn spec_isqrt(n: int) -> int {
    choose|r: int| is_sqrt(n, r)
}

/// The integer square root is unique.
pub proof fn lemma_sqrt_unique(n: int, r1: int, r2: int)
    requires
        is_sqrt(n, r1),
        is_sqrt(n, r2),
    ensures
        r1 == r2,
{
    assert(r1 == r2) by (nonlinear_arith)
        requires
            0 <= r1 && r1 * r1 <= n && n < (r1 + 1) * (r1 + 1),
            0 <= r2 && r2 * r2 <= n && n < (r2 + 1) * (r2 + 1),
    ;
}

/// Integer square root by bisection.
pub fn isqrt(n: i64) -> (r: i64)
    requires
        0 <= n <= 8500000000000000000,
    ensures
        is_sqrt(n as int, r as int),
        r == spec_isqrt(n as int),
        0 <= r <= 3000000000,
{
    let mut lo: i64 = 0;
    let mut hi: i64 = 3000000000;
    proof {
        assert(3000000000i64 * 3000000000i64 > 8500000000000000000i64) by (nonlinear_arith);
    }
    while lo + 1 < hi
        invariant
            0 <= lo < hi <= 3000000000,
            lo * lo <= n,
            n < hi * hi,
        decreases hi - lo,
    {
        let mid = lo + (hi - lo) / 2;
        proof {
            assert(0 <= mid * mid <= 9000000000000000000) by (nonlinear_arith)
                requires
                    0 <= mid <= 3000000000,
            ;
        }
        if mid * mid <= n {
            lo = mid;
        } else {
            hi = mid;
        }
    }
    proof {
        assert((lo + 1) * (lo + 1) >= hi * hi) by (nonlinear_arith)
            requires
                lo + 1 >= hi,
                hi > 0,
        ;
        assert(is_sqrt(n as int, lo as int));
        lemma_sqrt_unique(n as int, lo as int, spec_isqrt(n as int));
    }
    lo
}

/// Brings any angle into `[0, ANGLE_FULL)` without changing which direction
/// it denotes.
pub fn normalize_angle(a: i64) -> (r: i64)
    requires
        -4294967296 < a < 4294967296,
    ensures
        0 <= r < 65536,
        r == (a as int) % 65536,
{
    let mut r: i64 = a;
    while r < 0
        invariant
            r < 4294967296,
            r as int % 65536 == a as int % 65536,
        decreases 65536 - r,
    {
        proof {
            lemma_mod_add_multiples_vanish(r as int, 65536);
        }
        r = r + 65536;
    }
    while r >= 65536
        invariant
            r >= 0,
            r as int % 65536 == a as int % 65536,
        decreases r,
    {
        proof {
            lemma_mod_add_multiples_vanish((r - 65536) as int, 65536);
        }
        r = r - 65536;
    }
    proof {
        lemma_small_mod(r as nat, 65536);
    }
    r
}

} // verus!
