use vstd::arithmetic::div_mod::{
    lemma_fundamental_div_mod, lemma_fundamental_div_mod_converse_div,
    lemma_mod_division_less_than_divisor,
};
use vstd::prelude::*;

verus! {

/// One, in the fixed-point encoding: every scalar stands for itself divided
/// by `SCALE`.
pub const SCALE: i128 = 100000;

/// One half, in the fixed-point encoding.
pub const HALF: i128 = 50000;

/// Sentinel standing in for an unbounded parametric distance: far beyond any
/// distance the renderer can produce from coordinates within `COORD_MAX`.
pub const INF: i128 = 1000000000000000000;

/// Greatest magnitude allowed for a coordinate of a ray or a primitive.
pub const COORD_MAX: i128 = 1000000000;

/// Bound on any component of a point a ray within the budgets can reach:
/// a little over `INF * COORD_MAX / SCALE`.
pub const PMAX: i128 = 20000000000000000000000;

/// Bound on any component of an outward normal computed from such a point:
/// a little over `(PMAX + COORD_MAX) * SCALE`.
pub const NMAX: i128 = 3000000000000000000000000000;

/// `x` has magnitude at most `b`.
pub open spec fn abs_le(x: int, b: int) -> bool {
    -b <= x && x <= b
}

/// `r` is the floor of the square root of `n`.
pub open spec fn is_sqrt(n: int, r: int) -> bool {
    0 <= r && r * r <= n && n < (r + 1) * (r + 1)
}

/// The floor square root of `n`, as a mathematical function.
pub open spec fn sqrt_i(n: int) -> int {
    choose|r: int| is_sqrt(n, r)
}

/// The floor square root is unique.
pub proof fn lemma_sqrt_unique(n: int, a: int, b: int)
    requires
        is_sqrt(n, a),
        is_sqrt(n, b),
    ensures
        a == b,
{
    assert(a == b) by (nonlinear_arith)
        requires
            0 <= a,
            a * a <= n,
            n < (a + 1) * (a + 1),
            0 <= b,
            b * b <= n,
            n < (b + 1) * (b + 1),
    {
    }
}

/// Every nonnegative integer has a floor square root, so `sqrt_i` really
/// denotes it.
pub proof fn lemma_sqrt_exists(n: int)
    requires
        0 <= n,
    ensures
        is_sqrt(n, sqrt_i(n)),
        0 <= sqrt_i(n),
    decreases n,
{
    if n == 0 {
        assert(is_sqrt(0, 0));
    } else {
        lemma_sqrt_exists(n - 1);
        let r0 = sqrt_i(n - 1);
        if (r0 + 1) * (r0 + 1) <= n {
            assert(is_sqrt(n, r0 + 1)) by (nonlinear_arith)
                requires
                    0 <= r0,
                    r0 * r0 <= n - 1,
                    n - 1 < (r0 + 1) * (r0 + 1),
                    (r0 + 1) * (r0 + 1) <= n,
            {
            }
        } else {
            assert(is_sqrt(n, r0)) by (nonlinear_arith)
                requires
                    0 <= r0,
                    r0 * r0 <= n - 1,
                    n < (r0 + 1) * (r0 + 1),
            {
            }
        }
        assert(exists|r: int| is_sqrt(n, r));
    }
}

/// Division rounding toward negative infinity, matching the mathematical
/// `n / d` on `int` for a positive divisor.
pub fn floor_div(n: i128, d: i128) -> (r: i128)
    requires
        0 < d,
        i128::MIN < n,
    ensures
        r == (n as int) / (d as int),
{
    let q = n / d;
    let m = n % d;
    if m != 0 && n < 0 {
        proof {
            let k = (-(n as int)) / (d as int);
            let mm = (-(n as int)) % (d as int);
            lemma_fundamental_div_mod(-(n as int), d as int);
            lemma_mod_division_less_than_divisor(-(n as int), d as int);
            assert(mm != 0);
            assert(n as int == (-k - 1) * (d as int) + (d as int - mm)) by (nonlinear_arith)
                requires
                    -(n as int) == (d as int) * k + mm,
            {
            }
            lemma_fundamental_div_mod_converse_div(n as int, d as int, -k - 1, d as int - mm);
        }
        q - 1
    } else {
        proof {
            if n < 0 {
                let k = (-(n as int)) / (d as int);
                lemma_fundamental_div_mod(-(n as int), d as int);
                lemma_mod_division_less_than_divisor(-(n as int), d as int);
                assert(n as int == (-k) * (d as int) + 0) by (nonlinear_arith)
                    requires
                        -(n as int) == (d as int) * k,
                {
                }
                lemma_fundamental_div_mod_converse_div(n as int, d as int, -k, 0);
            }
        }
        q
    }
}

/// The floor square root, computed by bisection.
pub fn isqrt(n: i128) -> (r: i128)
    requires
        0 <= n,
    ensures
        r == sqrt_i(n as int),
        is_sqrt(n as int, r as int),
{
    let nu: u128 = n as u128;
    let mut lo: u128 = 0;
    let mut hi: u128 = 0x1_0000_0000_0000_0000;
    proof {
        assert((nu as int) < (hi as int) * (hi as int)) by (nonlinear_arith)
            requires
                nu as int <= 0x7fffffffffffffffffffffffffffffff,
                hi as int == 0x1_0000_0000_0000_0000,
        {
        }
    }
    while lo + 1 < hi
        invariant
            lo < hi,
            hi <= 0x1_0000_0000_0000_0000,
            (lo as int) * (lo as int) <= nu as int,
            (nu as int) < (hi as int) * (hi as int),
        decreases hi - lo,
    {
        let mid = lo + (hi - lo) / 2;
        proof {
            assert((mid as int) * (mid as int) <= u128::MAX as int) by (nonlinear_arith)
                requires
                    mid as int <= 0xffff_ffff_ffff_ffff,
                    u128::MAX as int == 0xffffffffffffffffffffffffffffffff,
            {
            }
        }
        let sq = mid * mid;
        if sq <= nu {
            lo = mid;
        } else {
            hi = mid;
        }
    }
    proof {
        assert(hi == lo + 1);
        assert(is_sqrt(nu as int, lo as int));
        let c = sqrt_i(nu as int);
        assert(is_sqrt(nu as int, c));
        lemma_sqrt_unique(nu as int, lo as int, c);
    }
    lo as i128
}

/// Magnitude of a floor quotient never exceeds the magnitude of the
/// numerator, for a divisor of at least one.
pub proof fn lemma_div_abs(n: int, d: int, b: int)
    requires
        1 <= d,
        abs_le(n, b),
    ensures
        abs_le(n / d, b),
{
    lemma_fundamental_div_mod(n, d);
    lemma_mod_division_less_than_divisor(n, d);
    assert(-b <= n / d && n / d <= b) by (nonlinear_arith)
        requires
            1 <= d,
            -b <= n <= b,
            n == d * (n / d) + n % d,
            0 <= n % d < d,
    {
    }
}

/// A floor quotient of a bounded numerator is bounded by the divided bound,
/// give or take the one unit the floor can lose below zero.
pub proof fn lemma_div_abs_scaled(n: int, d: int, b: int)
    requires
        1 <= d,
        0 <= b,
        abs_le(n, b),
    ensures
        abs_le(n / d, b / d + 1),
{
    lemma_fundamental_div_mod(n, d);
    lemma_mod_division_less_than_divisor(n, d);
    lemma_fundamental_div_mod(b, d);
    lemma_mod_division_less_than_divisor(b, d);
    assert(-(b / d + 1) <= n / d && n / d <= b / d + 1) by (nonlinear_arith)
        requires
            1 <= d,
            0 <= b,
            -b <= n <= b,
            n == d * (n / d) + n % d,
            0 <= n % d < d,
            b == d * (b / d) + b % d,
            0 <= b % d < d,
    {
    }
}

/// Magnitude of a product is bounded by the product of the bounds.
pub proof fn lemma_mul_abs(x: int, y: int, a: int, b: int)
    requires
        abs_le(x, a),
        abs_le(y, b),
    ensures
        abs_le(x * y, a * b),
{
    assert(-(a * b) <= x * y && x * y <= a * b) by (nonlinear_arith)
        requires
            -a <= x <= a,
            -b <= y <= b,
    {
    }
}

} // verus!
