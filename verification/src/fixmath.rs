use vstd::prelude::*;
use vstd::arithmetic::div_mod::lemma_div_is_ordered;
use vstd::arithmetic::div_mod::lemma_div_multiples_vanish;
use vstd::arithmetic::div_mod::lemma_div_pos_is_pos;
use vstd::arithmetic::div_mod::lemma_fundamental_div_mod;
use vstd::arithmetic::div_mod::lemma_fundamental_div_mod_converse;
use vstd::arithmetic::div_mod::lemma_mod_bound;

verus! {

/// Fixed-point sub-units per world unit: all world coordinates are carried
/// as integer multiples of `1 / FP_ONE` of a unit.
pub const FP_ONE: i64 = 1024;

/// Angle units per full turn: one unit is a tenth of a degree.
pub const FULL_TURN: i64 = 3600;

pub const HALF_TURN: i64 = 1800;

pub const QUARTER_TURN: i64 = 900;

/// The angle congruent to `a` that lies in `[0, FULL_TURN)`.
pub open spec fn angle_norm(a: int) -> int {
    a % (FULL_TURN as int)
}

/// The fixed-point sine of an angle `x` in `[0, HALF_TURN]`, scaled by
/// `FP_ONE`: a rational approximation that is exact at 0, a quarter turn and
/// a half turn, and everywhere within `[0, FP_ONE]`.
pub open spec fn sin_half(x: int) -> int {
    (16 * x * (1800 - x) * 1024) / (16200000 - 4 * x * (1800 - x))
}

/// The fixed-point sine of any angle in tenths of a degree, scaled by
/// `FP_ONE`.
pub open spec fn sin_fp(a: int) -> int {
    let x = angle_norm(a);
    if x <= 1800 {
        sin_half(x)
    } else {
        -sin_half(x - 1800)
    }
}

/// The fixed-point cosine of any angle in tenths of a degree, scaled by
/// `FP_ONE`.
pub open spec fn cos_fp(a: int) -> int {
    sin_fp(a + (QUARTER_TURN as int))
}

/// Brings any angle into `[0, FULL_TURN)` without changing its direction.
pub fn normalize_angle(a: i64) -> (r: i64)
    requires
        i64::MIN < a,
    ensures
        0 <= r < FULL_TURN,
        r == angle_norm(a as int),
{
    if a >= 0 {
        a % 3600
    } else {
        let b: i64 = -a;
        let m: i64 = b % 3600;
        let r: i64 = if m == 0 {
            0
        } else {
            3600 - m
        };
        proof {
            lemma_fundamental_div_mod(b as int, 3600);
            let qb = b as int / 3600;
            if m == 0 {
                lemma_fundamental_div_mod_converse(a as int, 3600, -qb, 0);
            } else {
                lemma_fundamental_div_mod_converse(a as int, 3600, -qb - 1, 3600 - m);
            }
        }
        r
    }
}

fn sin_half_exec(x: i64) -> (r: i64)
    requires
        0 <= x <= 1800,
    ensures
        r == sin_half(x as int),
        0 <= r <= FP_ONE,
{
    proof {
        assert(0 <= x * (1800 - x) <= 810000) by (nonlinear_arith)
            requires
                0 <= x <= 1800,
        ;
    }
    let p: i64 = x * (1800 - x);
    let num: i64 = 16 * p * 1024;
    let den: i64 = 16200000 - 4 * p;
    let r: i64 = num / den;
    proof {
        assert(num == 16 * (x as int) * (1800 - (x as int)) * 1024) by (nonlinear_arith)
            requires
                num == 16 * (p as int) * 1024,
                p == x * (1800 - x),
        ;
        assert(den == 16200000 - 4 * (x as int) * (1800 - (x as int))) by (nonlinear_arith)
            requires
                den == 16200000 - 4 * (p as int),
                p == x * (1800 - x),
        ;
        assert(num <= 1024 * den) by (nonlinear_arith)
            requires
                num == 16 * (p as int) * 1024,
                den == 16200000 - 4 * (p as int),
                p <= 810000,
        ;
        lemma_div_pos_is_pos(num as int, den as int);
        lemma_div_is_ordered(num as int, 1024 * den, den as int);
        lemma_div_multiples_vanish(1024, den as int);
    }
    r
}

/// The fixed-point sine of `a` tenths of a degree, in `[-FP_ONE, FP_ONE]`.
pub fn sin_deg10(a: i64) -> (r: i64)
    requires
        i64::MIN < a,
    ensures
        r == sin_fp(a as int),
        -FP_ONE <= r <= FP_ONE,
{
    let x: i64 = normalize_angle(a);
    if x <= 1800 {
        sin_half_exec(x)
    } else {
        -sin_half_exec(x - 1800)
    }
}

/// The fixed-point cosine of `a` tenths of a degree, in `[-FP_ONE, FP_ONE]`.
pub fn cos_deg10(a: i64) -> (r: i64)
    requires
        i64::MIN < a,
        a <= i64::MAX - 900,
    ensures
        r == cos_fp(a as int),
        -FP_ONE <= r <= FP_ONE,
{
    sin_deg10(a + QUARTER_TURN)
}

/// On `[0, HALF_TURN]` the sine approximation stays in `[0, FP_ONE]`.
pub proof fn lemma_sin_half_bounds(x: int)
    requires
        0 <= x <= 1800,
    ensures
        0 <= sin_half(x) <= FP_ONE,
{
    let p = x * (1800 - x);
    assert(0 <= p <= 810000) by (nonlinear_arith)
        requires
            0 <= x <= 1800,
            p == x * (1800 - x),
    ;
    let num = 16 * x * (1800 - x) * 1024;
    let den = 16200000 - 4 * x * (1800 - x);
    assert(num == 16 * p * 1024 && den == 16200000 - 4 * p) by (nonlinear_arith)
        requires
            p == x * (1800 - x),
            num == 16 * x * (1800 - x) * 1024,
            den == 16200000 - 4 * x * (1800 - x),
    ;
    assert(num <= 1024 * den) by (nonlinear_arith)
        requires
            num == 16 * p * 1024,
            den == 16200000 - 4 * p,
            p <= 810000,
    ;
    lemma_div_pos_is_pos(num, den);
    lemma_div_is_ordered(num, 1024 * den, den);
    lemma_div_multiples_vanish(1024, den);
}

/// The sine approximation never leaves `[-FP_ONE, FP_ONE]`, and is
/// non-negative over the first half turn.
pub proof fn lemma_sin_fp_bounds(a: int)
    ensures
        -FP_ONE <= sin_fp(a) <= FP_ONE,
        0 <= angle_norm(a) <= 1800 ==> sin_fp(a) >= 0,
{
    let x = angle_norm(a);
    lemma_mod_bound(a, 3600);
    if x <= 1800 {
        lemma_sin_half_bounds(x);
    } else {
        lemma_sin_half_bounds(x - 1800);
    }
}

/// The sine approximation at the four axis directions, where it is exact.
pub proof fn lemma_trig_anchors()
    ensures
        sin_fp(0) == 0,
        sin_fp(900) == FP_ONE,
        sin_fp(1800) == 0,
        sin_fp(2700) == -(FP_ONE as int),
        cos_fp(0) == FP_ONE,
        cos_fp(900) == 0,
        cos_fp(1800) == -(FP_ONE as int),
        cos_fp(2700) == 0,
{
    lemma_sin_half_at_anchors();
    assert(angle_norm(0) == 0);
    assert(angle_norm(900) == 900);
    assert(angle_norm(1800) == 1800);
    assert(angle_norm(2700) == 2700);
    assert(angle_norm(3600) == 0) by {
        lemma_fundamental_div_mod_converse(3600, 3600, 1, 0);
    }
}

/// The half-turn sine formula evaluated at its three exact anchors.
proof fn lemma_sin_half_at_anchors()
    ensures
        sin_half(0) == 0,
        sin_half(900) == 1024,
        sin_half(1800) == 0,
{
    assert(16 * 0 * (1800 - 0) * 1024 == 0) by (nonlinear_arith);
    assert(16200000 - 4 * 0 * (1800 - 0) == 16200000) by (nonlinear_arith);
    assert(sin_half(0) == 0int / 16200000);
    lemma_div_multiples_vanish(0, 16200000);

    assert(16 * 900 * (1800 - 900) * 1024 == 13271040000) by (nonlinear_arith);
    assert(16200000 - 4 * 900 * (1800 - 900) == 12960000) by (nonlinear_arith);
    assert(sin_half(900) == 13271040000int / 12960000);
    assert(13271040000int == 1024 * 12960000) by (nonlinear_arith);
    lemma_div_multiples_vanish(1024, 12960000);

    assert(16 * 1800 * (1800 - 1800) * 1024 == 0) by (nonlinear_arith);
    assert(16200000 - 4 * 1800 * (1800 - 1800) == 16200000) by (nonlinear_arith);
    assert(sin_half(1800) == 0int / 16200000);
    lemma_div_multiples_vanish(0, 16200000);
}

/// The fixed-point quarter-circle arc tangent of `n / d`, in tenths of a
/// degree: a quadratic approximation that is exact at 0 and at `n == d`.
pub open spec fn atan_octant(n: int, d: int) -> int {
    (450 * n * d + 156 * n * (d - n)) / (d * d)
}

fn atan_octant_exec(n: i64, d: i64) -> (r: i64)
    requires
        0 <= n <= d,
        0 < d <= 0x4000000,
    ensures
        r == atan_octant(n as int, d as int),
        0 <= r <= 450,
{
    proof {
        assert(0 <= n * d <= 0x10000000000000 && 0 <= n * (d - n) <= 0x10000000000000)
            by (nonlinear_arith)
            requires
                0 <= n <= d,
                0 < d <= 0x4000000,
        ;
        assert(0 < d * d <= 0x10000000000000) by (nonlinear_arith)
            requires
                0 < d <= 0x4000000,
        ;
    }
    let nd: i64 = n * d;
    let ndn: i64 = n * (d - n);
    let num: i64 = 450 * nd + 156 * ndn;
    let den: i64 = d * d;
    let r: i64 = num / den;
    proof {
        assert(num == 450 * (n as int) * (d as int) + 156 * (n as int) * ((d as int) - (n as int)))
            by (nonlinear_arith)
            requires
                num == 450 * (nd as int) + 156 * (ndn as int),
                nd == n * d,
                ndn == n * (d - n),
        ;
        assert(num <= 450 * den) by (nonlinear_arith)
            requires
                num == 450 * (nd as int) + 156 * (ndn as int),
                nd == n * d,
                ndn == n * (d - n),
                den == d * d,
                0 <= n <= d,
                0 < d,
        ;
        lemma_div_pos_is_pos(num as int, den as int);
        lemma_div_is_ordered(num as int, 450 * den, den as int);
        lemma_div_multiples_vanish(450, den as int);
    }
    r
}

/// The angle of the vector `(x, y)` in tenths of a degree, measured from the
/// positive x axis, in `[-HALF_TURN, HALF_TURN]`; the zero vector maps to 0.
pub open spec fn atan2_deg10_spec(y: int, x: int) -> int {
    if x == 0 && y == 0 {
        0
    } else {
        let ax = if x < 0 { -x } else { x };
        let ay = if y < 0 { -y } else { y };
        let base = if ay <= ax {
            atan_octant(ay, ax)
        } else {
            900 - atan_octant(ax, ay)
        };
        if x >= 0 && y >= 0 {
            base
        } else if x < 0 && y >= 0 {
            1800 - base
        } else if x < 0 {
            -(1800 - base)
        } else {
            -base
        }
    }
}

/// The angle of the vector `(x, y)`, in `[-HALF_TURN, HALF_TURN]`.
pub fn atan2_deg10(y: i64, x: i64) -> (r: i64)
    requires
        -0x4000000 <= x <= 0x4000000,
        -0x4000000 <= y <= 0x4000000,
    ensures
        r == atan2_deg10_spec(y as int, x as int),
        -HALF_TURN <= r <= HALF_TURN,
{
    if x == 0 && y == 0 {
        return 0;
    }
    let ax: i64 = if x < 0 { -x } else { x };
    let ay: i64 = if y < 0 { -y } else { y };
    let base: i64 = if ay <= ax {
        atan_octant_exec(ay, ax)
    } else {
        900 - atan_octant_exec(ax, ay)
    };
    if x >= 0 && y >= 0 {
        base
    } else if x < 0 && y >= 0 {
        1800 - base
    } else if x < 0 {
        -(1800 - base)
    } else {
        -base
    }
}

/// The angle congruent to `b` brought into `[-HALF_TURN, HALF_TURN]` by
/// whole turns, the way the sprite compositor folds a bearing.
pub open spec fn wrap_to_half_turn(b: int) -> int
    decreases (if b < 0 { -b } else { b })
{
    if b < -1800 {
        wrap_to_half_turn(b + 3600)
    } else if b > 1800 {
        wrap_to_half_turn(b - 3600)
    } else {
        b
    }
}

/// `r` is the integer square root of `n` rounded down.
pub open spec fn is_sqrt_floor(n: int, r: int) -> bool {
    0 <= r && r * r <= n && n < (r + 1) * (r + 1)
}

/// The integer square root of `n` rounded down, as a value: the one root
/// `is_sqrt_floor` accepts.
pub open spec fn sqrt_floor(n: int) -> int {
    choose|r: int| is_sqrt_floor(n, r)
}

/// There is only one integer square root, so any accepted root is the
/// value.
pub proof fn lemma_sqrt_floor_unique(n: int, r: int)
    requires
        is_sqrt_floor(n, r),
    ensures
        sqrt_floor(n) == r,
{
    assert(is_sqrt_floor(n, sqrt_floor(n))) by {
        assert(exists|c: int| is_sqrt_floor(n, c));
    }
    let c = sqrt_floor(n);
    assert(c == r) by (nonlinear_arith)
        requires
            0 <= c,
            c * c <= n,
            n < (c + 1) * (c + 1),
            0 <= r,
            r * r <= n,
            n < (r + 1) * (r + 1),
    ;
}

/// Division rounding toward zero, the way the machine divides signed
/// integers.
pub open spec fn div_trunc(a: int, b: int) -> int {
    if a >= 0 {
        a / b
    } else {
        -((-a) / b)
    }
}

/// The integer square root: the greatest `r` with `r * r <= n`.
pub fn isqrt(n: i64) -> (r: i64)
    requires
        0 <= n < 0x10000000000000,
    ensures
        0 <= r,
        r * r <= n,
        (r + 1) * (r + 1) > n,
{
    if n == 0 {
        return 0;
    }
    let mut lo: i64 = 0;
    let mut hi: i64 = 0x4000000;
    proof {
        assert(hi * hi == 0x10000000000000) by (nonlinear_arith)
            requires
                hi == 0x4000000,
        ;
    }
    while lo + 1 < hi
        invariant
            0 <= lo < hi <= 0x4000000,
            lo * lo <= n,
            hi * hi > n,
            n < 0x10000000000000,
        decreases hi - lo,
    {
        let mid: i64 = lo + (hi - lo) / 2;
        assert(lo < mid < hi);
        proof {
            assert(0 <= mid * mid <= 0x10000000000000) by (nonlinear_arith)
                requires
                    0 < mid <= 0x4000000,
            ;
        }
        if mid * mid <= n {
            lo = mid;
        } else {
            hi = mid;
        }
    }
    lo
}

} // verus!
