//! Fixed-point arithmetic for the simulation: truncating scaling, integer
//! square root, a rational approximation of sine, angle normalization and
//! world-coordinate wrapping. All values are in milli-units.

use vstd::prelude::*;

verus! {

/// Absolute value of a mathematical integer.
pub open spec fn iabs(a: int) -> int {
    if a < 0 {
        -a
    } else {
        a
    }
}

/// Division truncating toward zero (the rounding the simulation uses),
/// for a positive divisor.
pub open spec fn tdiv(n: int, d: int) -> int {
    if n >= 0 {
        n / d
    } else {
        -((-n) / d)
    }
}

/// `a * num / den`, truncated toward zero.
pub open spec fn scale_s(a: int, num: int, den: int) -> int {
    tdiv(a * num, den)
}

/// Truncating division shrinks the magnitude: `tdiv(a, d)^2 * d^2 <= a^2`.
pub proof fn lemma_tdiv_sq(a: int, d: int)
    requires
        d >= 1,
    ensures
        tdiv(a, d) * tdiv(a, d) * d * d <= a * a,
{
    let q = tdiv(a, d);
    let m = iabs(a);
    assert(m >= 0);
    assert(iabs(q) == m / d) by {
        if a >= 0 {
        } else {
            assert(-a >= 0);
            assert((-a) / d >= 0) by {
                vstd::arithmetic::div_mod::lemma_div_pos_is_pos(-a, d);
            }
        }
    }
    assert((m / d) * d <= m) by {
        vstd::arithmetic::div_mod::lemma_fundamental_div_mod(m, d);
        vstd::arithmetic::div_mod::lemma_mod_bound(m, d);
    }
    let qa = m / d;
    assert(qa >= 0) by {
        vstd::arithmetic::div_mod::lemma_div_pos_is_pos(m, d);
    }
    assert(qa * qa * d * d <= m * m) by (nonlinear_arith)
        requires
            qa >= 0,
            d >= 1,
            m >= 0,
            qa * d <= m,
    {}
    assert(q * q == iabs(q) * iabs(q)) by (nonlinear_arith);
    assert(a * a == m * m) by (nonlinear_arith)
        requires
            m == iabs(a),
    {}
    assert(q * q * d * d == qa * qa * d * d) by (nonlinear_arith)
        requires
            q * q == qa * qa,
    {}
}

/// `a * num / den` truncated toward zero, computed without overflow for
/// magnitudes up to a billion.
pub fn mul_div(a: i64, num: u64, den: u64) -> (r: i64)
    requires
        -1_000_000_000 <= a <= 1_000_000_000,
        num <= 1_000_000_000,
        1 <= den,
    ensures
        r == scale_s(a as int, num as int, den as int),
        iabs(r as int) <= iabs(a as int) * num / den as int,
        iabs(r as int) <= 1_000_000_000_000_000_000,
        num <= den ==> iabs(r as int) <= iabs(a as int),
{
    let neg = a < 0;
    let am: u64 = if a < 0 {
        (-a) as u64
    } else {
        a as u64
    };
    assert(am == iabs(a as int));
    proof {
        assert(am as int * num as int <= 1_000_000_000_000_000_000) by (nonlinear_arith)
            requires
                0 <= am <= 1_000_000_000,
                0 <= num <= 1_000_000_000,
        {}
    }
    let prod: u64 = am * num;
    let q: u64 = prod / den;
    assert(q <= prod) by {
        vstd::arithmetic::div_mod::lemma_div_nonincreasing(prod as int, den as int);
    }
    proof {
        if num <= den {
            assert(prod <= am * den) by (nonlinear_arith)
                requires
                    prod == am * num,
                    num <= den,
                    0 <= am,
            {}
            assert(prod as int / den as int <= (am * den) / den as int) by {
                vstd::arithmetic::div_mod::lemma_div_is_ordered(
                    prod as int, am * den, den as int);
            }
            assert((am * den) / den as int == am) by {
                vstd::arithmetic::div_mod::lemma_div_by_multiple(am as int, den as int);
            }
        }
    }
    proof {
        if a >= 0 {
            assert(a as int * num as int == am as int * num as int);
            assert(scale_s(a as int, num as int, den as int) == q as int);
        } else {
            assert(a as int * num as int == -(am as int * num as int)) by (nonlinear_arith)
                requires
                    am as int == -(a as int),
            {}
            assert(scale_s(a as int, num as int, den as int) == -(q as int));
        }
    }
    if neg {
        -(q as i64)
    } else {
        q as i64
    }
}

/// Largest `r` with `r * r <= n`, for `n` below `2^32`, found by binary search.
pub fn isqrt64(n: u64) -> (r: u64)
    requires
        n < 0x1_0000_0000,
    ensures
        r * r <= n < (r + 1) * (r + 1),
        r <= 0xffff,
{
    let mut lo: u64 = 0;
    let mut hi: u64 = 0x1_0000;
    assert(hi * hi == 0x1_0000_0000) by (nonlinear_arith)
        requires
            hi == 0x1_0000,
    {}
    while lo + 1 < hi
        invariant
            lo < hi <= 0x1_0000,
            lo * lo <= n,
            n < hi * hi,
        decreases hi - lo,
    {
        let mid: u64 = (lo + hi) / 2;
        assert(lo < mid < hi);
        proof {
            assert(mid * mid <= 0x1_0000_0000) by (nonlinear_arith)
                requires
                    0 <= mid <= 0x1_0000,
            {}
        }
        if mid * mid <= n {
            lo = mid;
        } else {
            hi = mid;
        }
    }
    lo
}

/// The recursion behind [`sqrt_floor`]: the largest `r <= k` with `r * r <= n`.
pub open spec fn sqrt_rec(n: int, k: nat) -> int
    decreases k,
{
    if k == 0 {
        0
    } else if k * k <= n {
        k as int
    } else {
        sqrt_rec(n, (k - 1) as nat)
    }
}

/// Floor of the square root of `n`, for `0 <= n < 2^32`.
pub open spec fn sqrt_floor(n: int) -> int {
    sqrt_rec(n, 0xffff)
}

proof fn lemma_sqrt_rec(n: int, k: nat)
    requires
        0 <= n,
        n < (k + 1) * (k + 1),
    ensures
        sqrt_rec(n, k) * sqrt_rec(n, k) <= n,
        n < (sqrt_rec(n, k) + 1) * (sqrt_rec(n, k) + 1),
        0 <= sqrt_rec(n, k) <= k,
    decreases k,
{
    if k == 0 {
    } else if k * k <= n {
    } else {
        lemma_sqrt_rec(n, (k - 1) as nat);
    }
}

/// Milli-sine on the first half turn, a rational approximation:
/// `4000 * d * (180000 - d) / (40500e9 - d * (180000 - d))` for
/// `d` in `[0, 180000]` milli-degrees, scaled so that a sine of one is 1000.
pub open spec fn sin_half_s(d: int) -> int {
    (4000 * (d * (180000 - d))) / (40_500_000_000 - d * (180000 - d))
}

/// Milli-sine of an angle in `[0, 360000)` milli-degrees: the second half
/// turn mirrors the first with the opposite sign.
pub open spec fn sin_milli_s(d: int) -> int {
    if d <= 180000 {
        sin_half_s(d)
    } else {
        -sin_half_s(d - 180000)
    }
}

/// Milli-cosine: the sine a quarter turn ahead.
pub open spec fn cos_milli_s(d: int) -> int {
    if d < 270000 {
        sin_milli_s(d + 90000)
    } else {
        sin_milli_s(d - 270000)
    }
}

proof fn lemma_sin_half_bounds(d: int)
    requires
        0 <= d <= 180000,
    ensures
        0 <= sin_half_s(d) <= 1000,
{
    let p = d * (180000 - d);
    assert(0 <= p <= 8_100_000_000) by (nonlinear_arith)
        requires
            0 <= d <= 180000,
            p == d * (180000 - d),
    {
        assert((d - 90000) * (d - 90000) >= 0);
    }
    let num = 4000 * p;
    let den = 40_500_000_000 - p;
    assert(den >= 32_400_000_000);
    assert(num >= 0);
    assert(num / den >= 0) by {
        vstd::arithmetic::div_mod::lemma_div_pos_is_pos(num, den);
    }
    assert(num <= 1000 * den);
    assert(num / den <= (1000 * den) / den) by {
        vstd::arithmetic::div_mod::lemma_div_is_ordered(num, 1000 * den, den);
    }
    assert((1000 * den) / den == 1000) by {
        vstd::arithmetic::div_mod::lemma_div_by_multiple(1000, den);
    }
}

fn sin_half(d: i64) -> (r: i64)
    requires
        0 <= d <= 180000,
    ensures
        r == sin_half_s(d as int),
        0 <= r <= 1000,
{
    proof {
        assert(d * (180000 - d) <= 8_100_000_000int && d * (180000 - d) >= 0)
            by (nonlinear_arith)
            requires
                0 <= d <= 180000,
        {}
    }
    let p: u64 = (d as u64) * ((180000 - d) as u64);
    let num: u64 = 4000 * p;
    let den: u64 = 40_500_000_000 - p;
    let q: u64 = num / den;
    proof {
        lemma_sin_half_bounds(d as int);
    }
    q as i64
}

/// Milli-sine of an angle in `[0, 360000)` milli-degrees.
pub fn sin_milli(d: i64) -> (r: i64)
    requires
        0 <= d < 360000,
    ensures
        r == sin_milli_s(d as int),
        -1000 <= r <= 1000,
{
    proof {
        if d > 180000 {
            lemma_sin_half_bounds(d - 180000);
        }
    }
    if d <= 180000 {
        sin_half(d)
    } else {
        -sin_half(d - 180000)
    }
}

/// Milli-cosine of an angle in `[0, 360000)` milli-degrees.
pub fn cos_milli(d: i64) -> (r: i64)
    requires
        0 <= d < 360000,
    ensures
        r == cos_milli_s(d as int),
        -1000 <= r <= 1000,
{
    if d < 270000 {
        sin_milli(d + 90000)
    } else {
        sin_milli(d - 270000)
    }
}

/// One normalization step for an angle: adds or subtracts a full turn
/// so that an angle within one turn of range lands in `[0, 360000)`.
pub open spec fn norm360_s(d: int) -> int {
    if d < 0 {
        d + 360000
    } else if d >= 360000 {
        d - 360000
    } else {
        d
    }
}

/// Normalizes an angle within one turn of range into `[0, 360000)`
/// milli-degrees.
pub fn norm360(d: i64) -> (r: i64)
    requires
        -360000 <= d < 720000,
    ensures
        r == norm360_s(d as int),
        0 <= r < 360000,
{
    if d < 0 {
        d + 360000
    } else if d >= 360000 {
        d - 360000
    } else {
        d
    }
}

/// One wrapping step for a world coordinate: a coordinate within one world
/// width of range lands back in `[0, w)`.
pub open spec fn wrap_s(x: int, w: int) -> int {
    if x < 0 {
        x + w
    } else if x >= w {
        x - w
    } else {
        x
    }
}

/// Wraps a coordinate within one world width of range into `[0, w)`.
pub fn wrap_coord(x: i64, w: i64) -> (r: i64)
    requires
        0 < w,
        -w <= x,
        x < 2 * w,
    ensures
        r == wrap_s(x as int, w as int),
        0 <= r < w,
{
    if x < 0 {
        x + w
    } else if x >= w {
        x - w
    } else {
        x
    }
}

/// `a * b / 1000` truncated toward zero: the product of two milli-unit
/// quantities, back in milli-units.
pub open spec fn mul_milli_s(a: int, b: int) -> int {
    tdiv(a * b, 1000)
}

/// `a * b / 1000` truncated toward zero, for milli-unit magnitudes up to
/// a million.
pub fn mul_milli(a: i64, b: i64) -> (r: i64)
    requires
        -1_000_000 <= a <= 1_000_000,
        -1_000_000 <= b <= 1_000_000,
    ensures
        r == mul_milli_s(a as int, b as int),
        iabs(r as int) * 1000 <= iabs(a as int) * iabs(b as int),
        iabs(b as int) <= 1000 ==> iabs(r as int) <= iabs(a as int),
{
    let r = if b >= 0 {
        mul_div(a, b as u64, 1000)
    } else {
        -mul_div(a, (-b) as u64, 1000)
    };
    proof {
        lemma_mul_milli(a as int, b as int, r as int);
    }
    r
}

proof fn lemma_mul_milli(a: int, b: int, r: int)
    requires
        -1_000_000 <= a <= 1_000_000,
        -1_000_000 <= b <= 1_000_000,
        b >= 0 ==> r == scale_s(a, b, 1000),
        b < 0 ==> r == -scale_s(a, -b, 1000),
    ensures
        r == mul_milli_s(a, b),
        iabs(r) * 1000 <= iabs(a) * iabs(b),
        iabs(b) <= 1000 ==> iabs(r) <= iabs(a),
{
    assert(a * b == -(a * -b)) by (nonlinear_arith);
    assert(tdiv(-(a * -b), 1000) == -tdiv(a * -b, 1000));
    assert(iabs(a * b) == iabs(a) * iabs(b)) by (nonlinear_arith);
    let p = iabs(a) * iabs(b);
    assert(iabs(r) == p / 1000) by {
        if a * b >= 0 {
            assert(iabs(tdiv(a * b, 1000)) == iabs(a * b) / 1000) by {
                vstd::arithmetic::div_mod::lemma_div_pos_is_pos(a * b, 1000);
            }
        } else {
            assert(iabs(tdiv(a * b, 1000)) == iabs(a * b) / 1000) by {
                vstd::arithmetic::div_mod::lemma_div_pos_is_pos(-(a * b), 1000);
            }
        }
    }
    assert((p / 1000) * 1000 <= p) by {
        vstd::arithmetic::div_mod::lemma_fundamental_div_mod(p, 1000);
        vstd::arithmetic::div_mod::lemma_mod_bound(p, 1000);
    }
    if iabs(b) <= 1000 {
        assert(p <= iabs(a) * 1000) by (nonlinear_arith)
            requires
                p == iabs(a) * iabs(b),
                0 <= iabs(a),
                0 <= iabs(b) <= 1000,
        {}
        assert(p / 1000 <= (iabs(a) * 1000) / 1000) by {
            vstd::arithmetic::div_mod::lemma_div_is_ordered(p, iabs(a) * 1000, 1000);
        }
        assert((iabs(a) * 1000) / 1000 == iabs(a)) by {
            vstd::arithmetic::div_mod::lemma_div_by_multiple(iabs(a), 1000);
        }
    }
}

/// `sqrt_floor(n)` brackets `n` between consecutive squares.
pub proof fn lemma_sqrt_props(n: int)
    requires
        0 <= n < 0x1_0000_0000,
    ensures
        sqrt_floor(n) * sqrt_floor(n) <= n,
        n < (sqrt_floor(n) + 1) * (sqrt_floor(n) + 1),
        0 <= sqrt_floor(n) <= 0xffff,
{
    assert((0xffff + 1) * (0xffff + 1) == 0x1_0000_0000) by (nonlinear_arith);
    lemma_sqrt_rec(n, 0xffff);
}

/// Scaling by `num/den` with `num <= den` does not grow the magnitude.
pub proof fn lemma_scale_contracts(a: int, num: int, den: int)
    requires
        0 <= num <= den,
        1 <= den,
    ensures
        iabs(scale_s(a, num, den)) <= iabs(a),
{
    let p = a * num;
    if a >= 0 {
        assert(a * num >= 0) by (nonlinear_arith)
            requires
                a >= 0,
                num >= 0,
        {}
    } else {
        assert(a * num <= 0 && -(a * num) == (-a) * num) by (nonlinear_arith)
            requires
                a <= 0,
                num >= 0,
        {}
    }
    assert(iabs(p) == iabs(a) * num);
    assert(iabs(tdiv(p, den)) == iabs(p) / den) by {
        if p >= 0 {
            vstd::arithmetic::div_mod::lemma_div_pos_is_pos(p, den);
        } else {
            vstd::arithmetic::div_mod::lemma_div_pos_is_pos(-p, den);
        }
    }
    assert(iabs(a) * num <= iabs(a) * den) by (nonlinear_arith)
        requires
            num <= den,
            0 <= iabs(a),
    {}
    assert(iabs(p) / den <= (iabs(a) * den) / den) by {
        vstd::arithmetic::div_mod::lemma_div_is_ordered(iabs(p), iabs(a) * den, den);
    }
    assert((iabs(a) * den) / den == iabs(a)) by {
        vstd::arithmetic::div_mod::lemma_div_by_multiple(iabs(a), den);
    }
}

/// The milli-sine always lies in `[-1000, 1000]`.
pub proof fn lemma_sin_bounds(d: int)
    requires
        0 <= d < 360000,
    ensures
        -1000 <= sin_milli_s(d) <= 1000,
{
    if d <= 180000 {
        lemma_sin_half_bounds(d);
    } else {
        lemma_sin_half_bounds(d - 180000);
    }
}

/// The milli-cosine always lies in `[-1000, 1000]`.
pub proof fn lemma_cos_bounds(d: int)
    requires
        0 <= d < 360000,
    ensures
        -1000 <= cos_milli_s(d) <= 1000,
{
    if d < 270000 {
        lemma_sin_bounds(d + 90000);
    } else {
        lemma_sin_bounds(d - 270000);
    }
}

/// Scaling by a milli-factor of magnitude at most one (1000 milli) does not
/// grow the magnitude.
pub proof fn lemma_mul_milli_s_bound(a: int, b: int)
    requires
        -1000 <= b <= 1000,
    ensures
        iabs(mul_milli_s(a, b)) <= iabs(a),
{
    if b >= 0 {
        lemma_scale_contracts(a, b, 1000);
    } else {
        assert(a * b == -(a * (-b))) by (nonlinear_arith);
        assert(tdiv(a * b, 1000) == -tdiv(a * (-b), 1000));
        lemma_scale_contracts(a, -b, 1000);
    }
}

/// `sqrt_floor` is the unique integer square root: any `r` bracketing `n`
/// equals it.
pub proof fn lemma_sqrt_floor_unique(n: int, r: int)
    requires
        0 <= n < 0x1_0000_0000,
        0 <= r,
        r * r <= n,
        n < (r + 1) * (r + 1),
    ensures
        r == sqrt_floor(n),
{
    assert((0xffff + 1) * (0xffff + 1) == 0x1_0000_0000) by (nonlinear_arith);
    lemma_sqrt_rec(n, 0xffff);
    let s = sqrt_floor(n);
    if r < s {
        assert((r + 1) * (r + 1) <= s * s) by (nonlinear_arith)
            requires
                0 <= r,
                r + 1 <= s,
        {}
    }
    if s < r {
        assert((s + 1) * (s + 1) <= r * r) by (nonlinear_arith)
            requires
                0 <= s,
                s + 1 <= r,
        {}
    }
}

} // verus!
