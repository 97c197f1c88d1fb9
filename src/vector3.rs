//! Three-component vectors of fixed-point scalars.
use vstd::prelude::*;

use crate::fixed::{
    add_real, div_real, mul_real, neg_real, sqrt_real, sub_real, clamp, is_isqrt, isqrt, lemma_isqrt_exists, max_real, quot, radd, rdiv,
    rmul, rneg, rsqrt, rsub, scale,
};

verus! {

/// A vector with three fixed-point components; `Default` is the zero vector.
#[derive(Clone, Copy, Debug, PartialEq, Eq, Structural)]
pub struct Vector3 {
    pub x: i64,
    pub y: i64,
    pub z: i64,
}

pub open spec fn vec3(x: int, y: int, z: int) -> Vector3 {
    Vector3 { x: x as i64, y: y as i64, z: z as i64 }
}

pub open spec fn zero_vector() -> Vector3 {
    Vector3 { x: 0, y: 0, z: 0 }
}

impl Vector3 {
    /// Every component lies in the symmetric scalar range.
    pub open spec fn in_range(self) -> bool {
        self.x >= -max_real() && self.y >= -max_real() && self.z >= -max_real()
    }

    pub open spec fn plus(self, o: Vector3) -> Vector3 {
        vec3(radd(self.x as int, o.x as int), radd(self.y as int, o.y as int), radd(self.z as int, o.z as int))
    }

    pub open spec fn minus(self, o: Vector3) -> Vector3 {
        vec3(rsub(self.x as int, o.x as int), rsub(self.y as int, o.y as int), rsub(self.z as int, o.z as int))
    }

    pub open spec fn negation(self) -> Vector3 {
        vec3(rneg(self.x as int), rneg(self.y as int), rneg(self.z as int))
    }

    pub open spec fn scaled(self, k: int) -> Vector3 {
        vec3(rmul(self.x as int, k), rmul(self.y as int, k), rmul(self.z as int, k))
    }

    /// `self + o * k`, component by component.
    pub open spec fn plus_scaled(self, o: Vector3, k: int) -> Vector3 {
        vec3(
            radd(self.x as int, rmul(o.x as int, k)),
            radd(self.y as int, rmul(o.y as int, k)),
            radd(self.z as int, rmul(o.z as int, k)),
        )
    }

    pub open spec fn component_product_of(self, o: Vector3) -> Vector3 {
        vec3(rmul(self.x as int, o.x as int), rmul(self.y as int, o.y as int), rmul(self.z as int, o.z as int))
    }

    pub open spec fn dot(self, o: Vector3) -> int {
        radd(
            radd(rmul(self.x as int, o.x as int), rmul(self.y as int, o.y as int)),
            rmul(self.z as int, o.z as int),
        )
    }

    pub open spec fn cross(self, o: Vector3) -> Vector3 {
        vec3(
            rsub(rmul(self.y as int, o.z as int), rmul(self.z as int, o.y as int)),
            rsub(rmul(self.z as int, o.x as int), rmul(self.x as int, o.z as int)),
            rsub(rmul(self.x as int, o.y as int), rmul(self.y as int, o.x as int)),
        )
    }

    /// The sum of the squares of the three components.
    pub open spec fn square_length(self) -> int {
        clamp(rmul(self.x as int, self.x as int) + rmul(self.y as int, self.y as int) + rmul(
            self.z as int,
            self.z as int,
        ))
    }

    pub open spec fn length(self) -> int {
        rsqrt(self.square_length())
    }

    /// Each component divided by `m`.
    pub open spec fn divided(self, m: int) -> Vector3 {
        vec3(rdiv(self.x as int, m), rdiv(self.y as int, m), rdiv(self.z as int, m))
    }

    /// The unit vector in the direction of `self`.
    pub open spec fn unit(self) -> Vector3 {
        self.divided(self.length())
    }

    /// Creates a vector with the given components.
    pub fn new(x: i64, y: i64, z: i64) -> (r: Self)
        ensures
            r == (Vector3 { x, y, z }),
    {
        Vector3 { x, y, z }
    }

    /// The zero vector.
    pub fn zero() -> (r: Self)
        ensures
            r == zero_vector(),
    {
        Vector3 { x: 0, y: 0, z: 0 }
    }

    /// Negates each component, giving an equal and opposite vector.
    pub fn invert(&mut self)
        ensures
            *final(self) == old(self).negation(),
    {
        self.x = neg_real(self.x);
        self.y = neg_real(self.y);
        self.z = neg_real(self.z);
    }

    /// The Euclidean length of the vector.
    pub fn magnitude(&self) -> (r: i64)
        ensures
            r == self.length(),
            r >= 0,
    {
        sqrt_real(self.square_magnitude())
    }

    /// The sum of the squared components.
    pub fn square_magnitude(&self) -> (r: i64)
        ensures
            r == self.square_length(),
            r >= 0,
    {
        let xx = mul_real(self.x, self.x);
        let yy = mul_real(self.y, self.y);
        let zz = mul_real(self.z, self.z);
        assert(xx >= 0 && yy >= 0 && zz >= 0) by (nonlinear_arith)
            requires
                xx == rmul(self.x as int, self.x as int),
                yy == rmul(self.y as int, self.y as int),
                zz == rmul(self.z as int, self.z as int),
        ;
        add_real(add_real(xx, yy), zz)
    }

    /// Turns the vector into the unit vector of the same direction.
    pub fn normalize(&mut self)
        requires
            old(self).length() != 0,
        ensures
            *final(self) == old(self).unit(),
    {
        let m = self.magnitude();
        self.x = div_real(self.x, m);
        self.y = div_real(self.y, m);
        self.z = div_real(self.z, m);
    }

    /// Adds `other * k` to this vector.
    pub fn add_scaled_vector(&mut self, other: &Vector3, k: i64)
        ensures
            *final(self) == old(self).plus_scaled(*other, k as int),
    {
        self.x = add_real(self.x, mul_real(other.x, k));
        self.y = add_real(self.y, mul_real(other.y, k));
        self.z = add_real(self.z, mul_real(other.z, k));
    }

    /// The vector of the products of corresponding components.
    pub fn component_product(&self, other: &Vector3) -> (r: Self)
        ensures
            r == self.component_product_of(*other),
    {
        Vector3 {
            x: mul_real(self.x, other.x),
            y: mul_real(self.y, other.y),
            z: mul_real(self.z, other.z),
        }
    }

    /// Multiplies each component by the matching one of `other`.
    pub fn component_product_update(&mut self, other: &Vector3)
        ensures
            *final(self) == old(self).component_product_of(*other),
    {
        *self = self.component_product(other);
    }

    /// The scalar (dot) product.
    pub fn scalar_product(&self, other: &Vector3) -> (r: i64)
        ensures
            r == self.dot(*other),
    {
        add_real(
            add_real(mul_real(self.x, other.x), mul_real(self.y, other.y)),
            mul_real(self.z, other.z),
        )
    }

    /// The vector (cross) product, by the right-hand rule.
    pub fn vector_product(&self, other: &Vector3) -> (r: Self)
        ensures
            r == self.cross(*other),
    {
        Vector3 {
            x: sub_real(mul_real(self.y, other.z), mul_real(self.z, other.y)),
            y: sub_real(mul_real(self.z, other.x), mul_real(self.x, other.z)),
            z: sub_real(mul_real(self.x, other.y), mul_real(self.y, other.x)),
        }
    }

    /// Component-wise sum.
    pub fn add_vector(&self, other: &Vector3) -> (r: Self)
        ensures
            r == self.plus(*other),
    {
        Vector3 {
            x: add_real(self.x, other.x),
            y: add_real(self.y, other.y),
            z: add_real(self.z, other.z),
        }
    }

    /// Component-wise difference.
    pub fn sub_vector(&self, other: &Vector3) -> (r: Self)
        ensures
            r == self.minus(*other),
    {
        Vector3 {
            x: sub_real(self.x, other.x),
            y: sub_real(self.y, other.y),
            z: sub_real(self.z, other.z),
        }
    }

    /// Each component multiplied by `k`.
    pub fn scale(&self, k: i64) -> (r: Self)
        ensures
            r == self.scaled(k as int),
    {
        Vector3 { x: mul_real(self.x, k), y: mul_real(self.y, k), z: mul_real(self.z, k) }
    }

    /// The opposite vector.
    pub fn negated(&self) -> (r: Self)
        ensures
            r == self.negation(),
    {
        let mut v = *self;
        v.invert();
        v
    }
}

impl Default for Vector3 {
    fn default() -> (r: Self)
        ensures
            r == zero_vector(),
    {
        Vector3::zero()
    }
}

/// The vector product is anti-commutative, and a vector crossed with itself is zero.
pub proof fn lemma_vector_product_anticommutative(a: Vector3, b: Vector3)
    ensures
        a.cross(b) == b.cross(a).negation(),
        a.cross(a) == zero_vector(),
{
    assert(a.y * b.z == b.z * a.y) by (nonlinear_arith);
    assert(a.z * b.y == b.y * a.z) by (nonlinear_arith);
    assert(a.z * b.x == b.x * a.z) by (nonlinear_arith);
    assert(a.x * b.z == b.z * a.x) by (nonlinear_arith);
    assert(a.x * b.y == b.y * a.x) by (nonlinear_arith);
    assert(a.y * b.x == b.x * a.y) by (nonlinear_arith);
}

/// The squared magnitude sums the squares of all three distinct components.
pub proof fn lemma_square_magnitude_sums_axes(v: Vector3)
    ensures
        v.square_length() == clamp(
            rmul(v.x as int, v.x as int) + rmul(v.y as int, v.y as int) + rmul(v.z as int, v.z as int),
        ),
        v.square_length() >= 0,
{
    assert(rmul(v.x as int, v.x as int) >= 0 && rmul(v.y as int, v.y as int) >= 0 && rmul(v.z as int, v.z as int) >= 0) by (nonlinear_arith);
}

/// Facts about one component `c` of a vector divided by a positive `m`:
/// `a = |c * ONE / m|` (truncated) satisfies `a * m <= |c| * ONE < (a + 1) * m`.
proof fn lemma_divided_component(c: int, m: int)
    requires
        m > 0,
        c * c <= max_real() * scale(),
        m >= scale() - 2,
    ensures
        ({
            let u = rdiv(c, m);
            let a = if u < 0 { -u } else { u };
            let b = if c < 0 { -c } else { c };
            &&& 0 <= a * m <= b * scale() < (a + 1) * m
            &&& (a * a) * (m * m) <= (b * b) * (scale() * scale())
            &&& (b * b) * (scale() * scale()) < (a * a + 2 * a + 1) * (m * m)
            &&& b * b == c * c
            &&& u * u == a * a
        }),
{
    let b = if c < 0 { -c } else { c };
    let s = scale();
    assert(b * b == c * c) by (nonlinear_arith)
        requires
            b == c || b == -c,
    ;
    assert(b <= 4_000_000_000_000) by (nonlinear_arith)
        requires
            b * b <= 9_223_372_036_854_775_807 * 1_000_000,
            b >= 0,
    ;
    let q = (b * s) / m;
    assert(q * m <= b * s < (q + 1) * m) by (nonlinear_arith)
        requires
            q == (b * s) / m,
            m > 0,
            b >= 0,
    ;
    assert(0 <= q <= 4 * b) by (nonlinear_arith)
        requires
            q * m <= b * s,
            m >= s - 2,
            s == 1_000_000,
            b >= 0,
            q == (b * s) / m,
            m > 0,
    ;
    assert(quot(c * s, m) == if c < 0 { -q } else { q });
    let u = rdiv(c, m);
    assert(u == if c < 0 { -q } else { q });
    assert(0 <= q * m);
    assert((q * q) * (m * m) <= (b * b) * (s * s)) by (nonlinear_arith)
        requires
            0 <= q * m <= b * s,
    ;
    assert((b * b) * (s * s) < (q * q + 2 * q + 1) * (m * m)) by (nonlinear_arith)
        requires
            0 <= b * s < (q + 1) * m,
    ;
    assert(u * u == q * q) by (nonlinear_arith)
        requires
            u == q || u == -q,
    ;
}

/// A square below twice the square of one unit is computed without saturation.
proof fn lemma_small_square(u: int)
    requires
        u * u < 2 * scale() * scale(),
    ensures
        rmul(u, u) == (u * u) / scale(),
        scale() * rmul(u, u) <= u * u < scale() * rmul(u, u) + scale(),
{
    assert(u * u >= 0) by (nonlinear_arith);
    let w = (u * u) / scale();
    assert(scale() * w <= u * u < scale() * w + scale() && w <= 2 * scale()) by (nonlinear_arith)
        requires
            w == (u * u) / 1_000_000,
            u * u < 2 * 1_000_000 * 1_000_000,
            u * u >= 0,
    ;
}

/// Normalizing a vector whose squared length is at least one unit and is
/// representable gives a vector whose length is one, to within four units of
/// the last place.
pub proof fn lemma_normalize_unit_length(v: Vector3)
    requires
        scale() * scale() <= v.x * v.x + v.y * v.y + v.z * v.z <= max_real() * scale(),
    ensures
        v.length() != 0,
        scale() - 4 <= v.unit().length() <= scale() + 3,
{
    let s = scale();
    let (x, y, z) = (v.x as int, v.y as int, v.z as int);
    let n = x * x + y * y + z * z;
    assert(x * x >= 0 && y * y >= 0 && z * z >= 0) by (nonlinear_arith);
    let tx = (x * x) / s;
    let ty = (y * y) / s;
    let tz = (z * z) / s;
    assert(s * tx <= x * x < s * tx + s) by (nonlinear_arith)
        requires
            tx == (x * x) / s,
            s == 1_000_000,
    ;
    assert(s * ty <= y * y < s * ty + s) by (nonlinear_arith)
        requires
            ty == (y * y) / s,
            s == 1_000_000,
    ;
    assert(s * tz <= z * z < s * tz + s) by (nonlinear_arith)
        requires
            tz == (z * z) / s,
            s == 1_000_000,
    ;
    assert(rmul(x, x) == tx && rmul(y, y) == ty && rmul(z, z) == tz);
    let sq = tx + ty + tz;
    assert(v.square_length() == sq);
    assert(s * sq <= n < s * sq + 3 * s);
    let big = sq * s;
    assert(big > 0) by (nonlinear_arith)
        requires
            s * sq <= n,
            n < s * sq + 3 * s,
            n >= s * s,
            s == 1_000_000,
            big == sq * s,
    ;
    lemma_isqrt_exists(big);
    let m = isqrt(big);
    assert(is_isqrt(big, m));
    assert(v.length() == m);
    assert(m * m <= big < (m + 1) * (m + 1));
    assert(m > 0) by (nonlinear_arith)
        requires
            big < (m + 1) * (m + 1),
            big >= 1,
            m >= 0,
    ;
    // m is at most n / s, and close to the square root of n.
    assert(m * s <= n) by (nonlinear_arith)
        requires
            m * m <= big,
            big <= n,
            n >= s * s,
            m > 0,
            s > 0,
    ;
    assert(s * (m * m) > s * n - 6 * n) by (nonlinear_arith)
        requires
            (m + 1) * (m + 1) > big,
            big > n - 3 * s,
            m * s <= n,
            n >= s * s,
            s == 1_000_000,
    ;
    assert(m >= s - 2) by (nonlinear_arith)
        requires
            (m + 1) * (m + 1) > big,
            big > n - 3 * s,
            n >= s * s,
            s == 1_000_000,
            m > 0,
    ;
    assert(x * x <= max_real() * s && y * y <= max_real() * s && z * z <= max_real() * s);
    lemma_divided_component(x, m);
    lemma_divided_component(y, m);
    lemma_divided_component(z, m);
    let u = v.unit();
    let (ux, uy, uz) = (u.x as int, u.y as int, u.z as int);
    let ax = if ux < 0 { -ux } else { ux };
    let ay = if uy < 0 { -uy } else { uy };
    let az = if uz < 0 { -uz } else { uz };
    let bx = if x < 0 { -x } else { x };
    let by_ = if y < 0 { -y } else { y };
    let bz = if z < 0 { -z } else { z };
    assert(bx * bx == x * x && by_ * by_ == y * y && bz * bz == z * z) by (nonlinear_arith)
        requires
            bx == x || bx == -x,
            by_ == y || by_ == -y,
            bz == z || bz == -z,
    ;
    let mm = m * m;
    let ss = s * s;
    let (qx, qy, qz) = (ax * ax, ay * ay, az * az);
    let (px, py, pz) = (bx * bx, by_ * by_, bz * bz);
    let uu = qx + qy + qz;
    assert(n == px + py + pz);
    assert(qx >= 0 && qy >= 0 && qz >= 0) by (nonlinear_arith)
        requires
            qx == ax * ax,
            qy == ay * ay,
            qz == az * az,
    ;
    // Upper bound on the squared length of the unit vector.
    assert(mm * uu <= ss * n) by (nonlinear_arith)
        requires
            qx * mm <= px * ss,
            qy * mm <= py * ss,
            qz * mm <= pz * ss,
            uu == qx + qy + qz,
            n == px + py + pz,
    ;
    assert(uu * (s - 6) < s * s * s) by (nonlinear_arith)
        requires
            mm * uu <= ss * n,
            s * mm > s * n - 6 * n,
            ss == s * s,
            n > 0,
            uu >= 0,
            s == 1_000_000,
    ;
    // Lower bound on it.
    let sa = ax + ay + az;
    assert(ss * n < mm * (uu + 2 * sa + 3)) by (nonlinear_arith)
        requires
            px * ss < (qx + 2 * ax + 1) * mm,
            py * ss < (qy + 2 * ay + 1) * mm,
            pz * ss < (qz + 2 * az + 1) * mm,
            uu == qx + qy + qz,
            n == px + py + pz,
            sa == ax + ay + az,
    ;
    assert(2 * sa * s <= uu + 3 * s * s) by (nonlinear_arith)
        requires
            uu == qx + qy + qz,
            qx == ax * ax,
            qy == ay * ay,
            qz == az * az,
            sa == ax + ay + az,
    ;
    assert(ss * n < n * (uu + 2 * sa + 3)) by (nonlinear_arith)
        requires
            ss * n < mm * (uu + 2 * sa + 3),
            mm <= n,
            uu + 2 * sa + 3 > 0,
    ;
    assert(s * s * s < uu * (s + 1) + 3 * s * s + 3 * s) by (nonlinear_arith)
        requires
            ss * n < n * (uu + 2 * sa + 3),
            ss == s * s,
            2 * sa * s <= uu + 3 * s * s,
            n > 0,
            s == 1_000_000,
    ;
    // The squared length as computed, and its square root.
    assert(uu < 2 * s * s) by (nonlinear_arith)
        requires
            uu * (s - 6) < s * s * s,
            s == 1_000_000,
            uu >= 0,
    ;
    lemma_small_square(ux);
    lemma_small_square(uy);
    lemma_small_square(uz);
    let (wx, wy, wz) = (rmul(ux, ux), rmul(uy, uy), rmul(uz, uz));
    let w = wx + wy + wz;
    assert(u.square_length() == w);
    let wb = w * s;
    assert(wb <= uu < wb + 3 * s);
    lemma_isqrt_exists(wb);
    let r = isqrt(wb);
    assert(is_isqrt(wb, r));
    assert(u.length() == if w <= 0 { 0 } else { r });
    assert(r <= s + 3) by (nonlinear_arith)
        requires
            r * r <= wb,
            wb <= uu,
            uu * (s - 6) < s * s * s,
            s == 1_000_000,
            r >= 0,
    ;
    assert(r >= s - 4) by (nonlinear_arith)
        requires
            (r + 1) * (r + 1) > wb,
            wb + 3 * s > uu,
            s * s * s < uu * (s + 1) + 3 * s * s + 3 * s,
            s == 1_000_000,
            r >= 0,
    ;
    assert(w > 0) by (nonlinear_arith)
        requires
            (r + 1) * (r + 1) > wb,
            r * r <= wb,
            r >= s - 4,
            wb == w * s,
            s == 1_000_000,
    ;
}

} // verus!
