//! Fixed-point exponential, sine and cosine, from truncated power series.
use vstd::prelude::*;

use crate::fixed::{
    add_real, div_int, mul_real, pow_nat, radd, rmul, rsub, scale, sub_real, tdiv, ONE,
};

verus! {

/// Number of terms of each power series.
pub const SERIES_TERMS: u64 = 16;

/// Euler's number, and its inverse, as scalars.
pub const E: i64 = 2_718_282;

pub const INV_E: i64 = 367_879;

/// Pi and two pi, as scalars.
pub const PI: i64 = 3_141_593;

pub const TWO_PI: i64 = 6_283_185;

/// `1 + f/(j+1) * (1 + f/(j+2) * (... (1 + f/top)))`: the tail of the
/// exponential series from term `j`, in Horner form.
pub open spec fn exp_poly(f: int, j: nat, top: nat) -> int
    decreases top - j,
{
    if j >= top {
        scale()
    } else {
        radd(scale(), tdiv(rmul(f, exp_poly(f, j + 1, top)), j + 1 as int))
    }
}

/// The exponential of `x`: `e` (or `1/e`) raised to the whole part of `x`,
/// times the series at the remaining fraction.
pub open spec fn rexp(x: int) -> int {
    let n = tdiv(x, scale());
    let f = x - n * scale();
    let base = if n >= 0 { E as int } else { INV_E as int };
    let whole = pow_nat(base, (if n >= 0 { n } else { -n }) as nat);
    rmul(whole, exp_poly(f, 0, SERIES_TERMS as nat))
}

/// Horner form of the series `1 - r2/(d_j) * (1 - r2/(d_{j+1}) * (...))`
/// shared by sine (`odd`, with `d_j = (2j+2)(2j+3)`) and cosine
/// (`d_j = (2j+1)(2j+2)`).
pub open spec fn alt_poly(r2: int, j: nat, top: nat, odd: bool) -> int
    decreases top - j,
{
    if j >= top {
        scale()
    } else {
        let d = if odd { (2 * j + 2) * (2 * j + 3) } else { (2 * j + 1) * (2 * j + 2) };
        rsub(scale(), tdiv(rmul(r2, alt_poly(r2, j + 1, top, odd)), d as int))
    }
}

/// `x` brought into `[-pi, pi]` (up to rounding) by whole turns.
pub open spec fn reduce_angle(x: int) -> int {
    let r = x - tdiv(x, TWO_PI as int) * TWO_PI;
    if r > PI {
        r - TWO_PI
    } else if r < -PI {
        r + TWO_PI
    } else {
        r
    }
}

pub open spec fn rsin(x: int) -> int {
    let r = reduce_angle(x);
    rmul(r, alt_poly(rmul(r, r), 0, SERIES_TERMS as nat, true))
}

pub open spec fn rcos(x: int) -> int {
    let r = reduce_angle(x);
    alt_poly(rmul(r, r), 0, SERIES_TERMS as nat, false)
}

fn exp_poly_real(f: i64) -> (r: i64)
    ensures
        r == exp_poly(f as int, 0, SERIES_TERMS as nat),
{
    let mut t: i64 = ONE;
    let mut j: u64 = SERIES_TERMS;
    while j > 0
        invariant
            j <= SERIES_TERMS,
            t == exp_poly(f as int, j as nat, SERIES_TERMS as nat),
        decreases j,
    {
        j = j - 1;
        t = add_real(ONE, div_int(mul_real(f, t), (j + 1) as i64));
    }
    t
}

/// The exponential of `x`.
pub fn exp_real(x: i64) -> (r: i64)
    ensures
        r == rexp(x as int),
{
    let n = div_int(x, ONE);
    assert(-9_223_372_036_855 <= n <= 9_223_372_036_855) by (nonlinear_arith)
        requires
            n == tdiv(x as int, 1_000_000),
            i64::MIN <= x <= i64::MAX,
    ;
    assert(-1_000_000 < x - n * 1_000_000 < 1_000_000) by (nonlinear_arith)
        requires
            n == tdiv(x as int, 1_000_000),
    ;
    let f = x - n * ONE;
    let whole = if n >= 0 {
        pow_nat_exec(E, n as u64)
    } else {
        pow_nat_exec(INV_E, (-n) as u64)
    };
    mul_real(whole, exp_poly_real(f))
}

fn pow_nat_exec(b: i64, n: u64) -> (r: i64)
    ensures
        r == pow_nat(b as int, n as nat),
    decreases n,
{
    if n == 0 {
        ONE
    } else {
        let h = pow_nat_exec(b, n / 2);
        let h2 = mul_real(h, h);
        if n % 2 == 1 {
            mul_real(h2, b)
        } else {
            h2
        }
    }
}

fn alt_poly_real(r2: i64, odd: bool) -> (r: i64)
    ensures
        r == alt_poly(r2 as int, 0, SERIES_TERMS as nat, odd),
{
    let mut t: i64 = ONE;
    let mut j: u64 = SERIES_TERMS;
    while j > 0
        invariant
            j <= SERIES_TERMS,
            t == alt_poly(r2 as int, j as nat, SERIES_TERMS as nat, odd),
        decreases j,
    {
        j = j - 1;
        let jj = j as i64;
        assert(0 < (2 * jj + 1) * (2 * jj + 2) < (2 * jj + 2) * (2 * jj + 3) <= 2_000) by (nonlinear_arith)
            requires
                0 <= jj < 16,
        ;
        let d: i64 = if odd {
            (2 * jj + 2) * (2 * jj + 3)
        } else {
            (2 * jj + 1) * (2 * jj + 2)
        };
        t = sub_real(ONE, div_int(mul_real(r2, t), d));
    }
    t
}

fn reduce_angle_real(x: i64) -> (r: i64)
    ensures
        r == reduce_angle(x as int),
{
    let q = div_int(x, TWO_PI);
    assert(-2 * TWO_PI < x - q * TWO_PI < 2 * TWO_PI) by (nonlinear_arith)
        requires
            q == tdiv(x as int, TWO_PI as int),
    ;
    let r = x - q * TWO_PI;
    if r > PI {
        r - TWO_PI
    } else if r < -PI {
        r + TWO_PI
    } else {
        r
    }
}

pub fn sin_real(x: i64) -> (r: i64)
    ensures
        r == rsin(x as int),
{
    let r = reduce_angle_real(x);
    mul_real(r, alt_poly_real(mul_real(r, r), true))
}

pub fn cos_real(x: i64) -> (r: i64)
    ensures
        r == rcos(x as int),
{
    let r = reduce_angle_real(x);
    alt_poly_real(mul_real(r, r), false)
}

} // verus!
