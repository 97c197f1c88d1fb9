//! Saturating decimal fixed-point scalars.
//!
//! A scalar is an `i64` holding the value multiplied by `ONE` (one millionth
//! resolution). Every operation computes exactly in a wider integer, truncates
//! toward zero where it divides, and saturates to `[-i64::MAX, i64::MAX]`, a
//! range symmetric about zero so that negation never overflows.
use vstd::prelude::*;

verus! {

/// The fixed-point representation of the value 1.
pub const ONE: i64 = 1_000_000;

/// Number of binary digits of the fractional part of an exponent used by `pow_real`.
pub const FRAC_BITS: u64 = 20;

/// The largest magnitude a scalar takes; it also stands for infinity.
pub open spec fn max_real() -> int {
    i64::MAX as int
}

pub open spec fn scale() -> int {
    ONE as int
}

pub open spec fn clamp(v: int) -> int {
    if v > max_real() {
        max_real()
    } else if v < -max_real() {
        -max_real()
    } else {
        v
    }
}

/// Division by a positive divisor, truncating toward zero.
pub open spec fn tdiv(a: int, d: int) -> int {
    if a >= 0 {
        a / d
    } else {
        -((-a) / d)
    }
}

/// Division by a non-zero divisor, truncating toward zero.
pub open spec fn quot(a: int, d: int) -> int {
    if d > 0 {
        tdiv(a, d)
    } else {
        tdiv(-a, -d)
    }
}

pub open spec fn radd(a: int, b: int) -> int {
    clamp(a + b)
}

pub open spec fn rsub(a: int, b: int) -> int {
    clamp(a - b)
}

pub open spec fn rneg(a: int) -> int {
    clamp(-a)
}

pub open spec fn rmul(a: int, b: int) -> int {
    clamp(tdiv(a * b, scale()))
}

pub open spec fn rdiv(a: int, b: int) -> int {
    clamp(quot(a * scale(), b))
}

pub open spec fn rabs(a: int) -> int {
    if a < 0 {
        rneg(a)
    } else {
        a
    }
}

pub open spec fn is_isqrt(n: int, r: int) -> bool {
    0 <= r && r * r <= n && n < (r + 1) * (r + 1)
}

/// The integer square root of `n >= 0`.
pub open spec fn isqrt(n: int) -> int {
    choose|r: int| is_isqrt(n, r)
}

/// Square root; zero for a non-positive argument.
pub open spec fn rsqrt(a: int) -> int {
    if a <= 0 {
        0
    } else {
        isqrt(a * scale())
    }
}

/// `b` raised to the natural number `n`, by repeated squaring.
pub open spec fn pow_nat(b: int, n: nat) -> int
    decreases n,
{
    if n == 0 {
        scale()
    } else {
        let h = pow_nat(b, n / 2);
        let h2 = rmul(h, h);
        if n % 2 == 1 {
            rmul(h2, b)
        } else {
            h2
        }
    }
}

/// `b` raised to the fraction `f / ONE` (with `0 <= f < ONE`), from the first
/// `k` binary digits of the fraction: each digit that is set contributes a
/// repeated square root of `b`.
pub open spec fn pow_frac(b: int, f: int, k: nat) -> int
    decreases k,
{
    if k == 0 {
        scale()
    } else {
        let r = rsqrt(b);
        if 2 * f >= scale() {
            rmul(r, pow_frac(r, 2 * f - scale(), (k - 1) as nat))
        } else {
            pow_frac(r, 2 * f, (k - 1) as nat)
        }
    }
}

/// `b` raised to a non-negative exponent `t`.
pub open spec fn rpow(b: int, t: int) -> int {
    rmul(pow_nat(b, (t / scale()) as nat), pow_frac(b, t % scale(), FRAC_BITS as nat))
}

pub proof fn lemma_mul_one(a: int)
    requires
        -max_real() <= a <= max_real(),
    ensures
        rmul(a, scale()) == a,
        rmul(scale(), a) == a,
{
    assert(a * 1_000_000 == 1_000_000 * a) by (nonlinear_arith);
    if a >= 0 {
        assert((a * 1_000_000) / 1_000_000 == a) by (nonlinear_arith);
    } else {
        assert((-(a * 1_000_000)) / 1_000_000 == -a) by (nonlinear_arith);
    }
}

pub proof fn lemma_sqrt_one()
    ensures
        rsqrt(scale()) == scale(),
{
    assert(is_isqrt(scale() * scale(), scale())) by (nonlinear_arith);
    lemma_isqrt_unique(scale() * scale(), scale(), isqrt(scale() * scale()));
}

pub proof fn lemma_pow_nat_one(n: nat)
    ensures
        pow_nat(scale(), n) == scale(),
    decreases n,
{
    if n > 0 {
        lemma_pow_nat_one(n / 2);
        lemma_mul_one(scale());
    }
}

pub proof fn lemma_pow_frac_one(f: int, k: nat)
    ensures
        pow_frac(scale(), f, k) == scale(),
    decreases k,
{
    if k > 0 {
        lemma_sqrt_one();
        lemma_pow_frac_one(2 * f - scale(), (k - 1) as nat);
        lemma_pow_frac_one(2 * f, (k - 1) as nat);
        lemma_mul_one(scale());
    }
}

pub proof fn lemma_pow_frac_zero(b: int, k: nat)
    ensures
        pow_frac(b, 0, k) == scale(),
    decreases k,
{
    if k > 0 {
        lemma_pow_frac_zero(rsqrt(b), (k - 1) as nat);
    }
}

/// One raised to any non-negative power is one.
pub proof fn lemma_pow_of_one(t: int)
    requires
        t >= 0,
    ensures
        rpow(scale(), t) == scale(),
{
    lemma_pow_nat_one((t / scale()) as nat);
    lemma_pow_frac_one(t % scale(), FRAC_BITS as nat);
    lemma_mul_one(scale());
}

/// Any scalar raised to the power one is itself.
pub proof fn lemma_pow_one(b: int)
    requires
        -max_real() <= b <= max_real(),
    ensures
        rpow(b, scale()) == b,
{
    assert(scale() / scale() == 1);
    assert(scale() % scale() == 0);
    assert(pow_nat(b, 0) == scale());
    lemma_mul_one(scale());
    lemma_mul_one(b);
    assert(pow_nat(b, 1) == b);
    lemma_pow_frac_zero(b, FRAC_BITS as nat);
}

pub fn saturate(v: i128) -> (r: i64)
    ensures
        r == clamp(v as int),
{
    if v > i64::MAX as i128 {
        i64::MAX
    } else if v < -(i64::MAX as i128) {
        -i64::MAX
    } else {
        v as i64
    }
}

pub(crate) fn trunc_div(a: i128, d: i128) -> (r: i128)
    requires
        d > 0,
        a > i128::MIN,
    ensures
        r == tdiv(a as int, d as int),
{
    if a >= 0 {
        a / d
    } else {
        let q = (-a) / d;
        proof {
            let na: int = -(a as int);
            assert(0 <= na / (d as int) <= na) by (nonlinear_arith)
                requires
                    d > 0,
                    na > 0,
            ;
        }
        -q
    }
}

pub fn add_real(a: i64, b: i64) -> (r: i64)
    ensures
        r == radd(a as int, b as int),
{
    saturate(a as i128 + b as i128)
}

pub fn sub_real(a: i64, b: i64) -> (r: i64)
    ensures
        r == rsub(a as int, b as int),
{
    saturate(a as i128 - b as i128)
}

pub fn neg_real(a: i64) -> (r: i64)
    ensures
        r == rneg(a as int),
{
    saturate(-(a as i128))
}

pub fn abs_real(a: i64) -> (r: i64)
    ensures
        r == rabs(a as int),
{
    if a < 0 {
        neg_real(a)
    } else {
        a
    }
}

/// Divides a scalar by a positive integer, truncating toward zero.
pub fn div_int(a: i64, d: i64) -> (r: i64)
    requires
        d > 0,
    ensures
        r == tdiv(a as int, d as int),
{
    let q = trunc_div(a as i128, d as i128);
    proof {
        if a >= 0 {
            assert(0 <= (a as int) / (d as int) <= a) by (nonlinear_arith)
                requires
                    d > 0,
                    a >= 0,
            ;
        } else {
            let na: int = -(a as int);
            assert(0 <= na / (d as int) <= na) by (nonlinear_arith)
                requires
                    d > 0,
                    na > 0,
            ;
        }
    }
    q as i64
}

pub fn mul_real(a: i64, b: i64) -> (r: i64)
    ensures
        r == rmul(a as int, b as int),
{
    assert(-0x4000_0000_0000_0000_0000_0000_0000_0000 <= a * b <= 0x4000_0000_0000_0000_0000_0000_0000_0000)
        by (nonlinear_arith)
        requires
            i64::MIN <= a <= i64::MAX,
            i64::MIN <= b <= i64::MAX,
    ;
    let p: i128 = a as i128 * b as i128;
    saturate(trunc_div(p, ONE as i128))
}

pub fn div_real(a: i64, b: i64) -> (r: i64)
    requires
        b != 0,
    ensures
        r == rdiv(a as int, b as int),
{
    assert(-0x10_0000_0000_0000_0000_0000 < a * 1_000_000 < 0x10_0000_0000_0000_0000_0000)
        by (nonlinear_arith)
        requires
            i64::MIN <= a <= i64::MAX,
    ;
    let n: i128 = a as i128 * ONE as i128;
    if b > 0 {
        saturate(trunc_div(n, b as i128))
    } else {
        saturate(trunc_div(-n, -(b as i128)))
    }
}

pub proof fn lemma_isqrt_unique(n: int, r: int, s: int)
    requires
        is_isqrt(n, r),
        is_isqrt(n, s),
    ensures
        r == s,
{
    if r < s {
        assert((r + 1) * (r + 1) <= s * s) by (nonlinear_arith)
            requires
                0 <= r < s,
        ;
    } else if s < r {
        assert((s + 1) * (s + 1) <= r * r) by (nonlinear_arith)
            requires
                0 <= s < r,
        ;
    }
}

/// Every non-negative integer has an integer square root.
pub proof fn lemma_isqrt_exists(n: int)
    requires
        n >= 0,
    ensures
        exists|r: int| is_isqrt(n, r),
    decreases n,
{
    if n == 0 {
        assert(is_isqrt(0, 0));
    } else {
        lemma_isqrt_exists(n - 1);
        let r = choose|r: int| #[trigger] is_isqrt(n - 1, r);
        if n < (r + 1) * (r + 1) {
            assert(is_isqrt(n, r));
        } else {
            assert(n < (r + 2) * (r + 2)) by (nonlinear_arith)
                requires
                    n - 1 < (r + 1) * (r + 1),
                    r >= 0,
            ;
            assert(is_isqrt(n, r + 1));
        }
    }
}

/// Integer square root of `n < 2^84`, by bisection.
fn isqrt_u128(n: u128) -> (r: u128)
    requires
        n < 0x10_0000_0000_0000_0000_0000,
    ensures
        is_isqrt(n as int, r as int),
        r as int == isqrt(n as int),
{
    let mut lo: u128 = 0;
    let mut hi: u128 = 0x400_0000_0000;
    assert(hi * hi == 0x10_0000_0000_0000_0000_0000) by (nonlinear_arith)
        requires
            hi == 0x400_0000_0000,
    ;
    while hi - lo > 1
        invariant
            lo < hi <= 0x400_0000_0000,
            lo * lo <= n,
            n < hi * hi,
        decreases hi - lo,
    {
        let mid: u128 = lo + (hi - lo) / 2;
        assert(mid * mid <= 0x10_0000_0000_0000_0000_0000) by (nonlinear_arith)
            requires
                mid <= 0x400_0000_0000,
        ;
        if mid * mid <= n {
            lo = mid;
        } else {
            hi = mid;
        }
    }
    assert(hi == lo + 1);
    assert(is_isqrt(n as int, lo as int));
    proof {
        lemma_isqrt_unique(n as int, lo as int, isqrt(n as int));
    }
    lo
}

pub fn sqrt_real(a: i64) -> (r: i64)
    ensures
        r == rsqrt(a as int),
        r >= 0,
{
    if a <= 0 {
        0
    } else {
        assert(a * 1_000_000 < 0x10_0000_0000_0000_0000_0000) by (nonlinear_arith)
            requires
                0 < a <= i64::MAX,
        ;
        let n: u128 = a as u128 * ONE as u128;
        let s = isqrt_u128(n);
        assert(s * s <= n);
        assert(s < 0x8000_0000_0000) by (nonlinear_arith)
            requires
                s * s <= n,
                n < 0x10_0000_0000_0000_0000_0000,
        ;
        s as i64
    }
}

fn pow_nat_real(b: i64, n: u64) -> (r: i64)
    ensures
        r == pow_nat(b as int, n as nat),
    decreases n,
{
    if n == 0 {
        ONE
    } else {
        let h = pow_nat_real(b, n / 2);
        let h2 = mul_real(h, h);
        if n % 2 == 1 {
            mul_real(h2, b)
        } else {
            h2
        }
    }
}

fn pow_frac_real(b: i64, f: i64, k: u64) -> (r: i64)
    requires
        0 <= f < ONE,
    ensures
        r == pow_frac(b as int, f as int, k as nat),
    decreases k,
{
    if k == 0 {
        ONE
    } else {
        let r = sqrt_real(b);
        if 2 * f >= ONE {
            let rest = pow_frac_real(r, 2 * f - ONE, k - 1);
            mul_real(r, rest)
        } else {
            pow_frac_real(r, 2 * f, k - 1)
        }
    }
}

/// Raises `b` to the non-negative exponent `t`.
pub fn pow_real(b: i64, t: i64) -> (r: i64)
    requires
        t >= 0,
    ensures
        r == rpow(b as int, t as int),
{
    let whole = pow_nat_real(b, (t / ONE) as u64);
    let part = pow_frac_real(b, t % ONE, FRAC_BITS);
    mul_real(whole, part)
}

} // verus!
