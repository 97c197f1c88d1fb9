//! Force generators: rules that add a force to a particle once per step.
use vstd::arithmetic::div_mod::{lemma_div_is_ordered, lemma_div_pos_is_pos};
use vstd::prelude::*;

use crate::elementary::{cos_real, exp_real, rcos, rexp, rsin, sin_real};
use crate::fixed::{
    abs_real, add_real, div_real, is_isqrt, isqrt, lemma_isqrt_exists, max_real, mul_real,
    neg_real, rabs, radd, rdiv, rmul, rneg, rsqrt, rsub, scale, sqrt_real, sub_real, tdiv, ONE,
};
use crate::particle::Particle;
use crate::vector3::{vec3, Vector3};

verus! {

/// The force of a spring stretched or compressed from `rest` along `diff`:
/// magnitude `k * |length(diff) - rest|`, directed against `diff`.
pub open spec fn spring_force(diff: Vector3, k: int, rest: int) -> Vector3 {
    diff.unit().scaled(rneg(rmul(k, rabs(rsub(diff.length(), rest)))))
}

/// Like `spring_force`, but only while stretched beyond `rest`:
/// magnitude `k * (length(diff) - rest)`.
pub open spec fn bungee_force(diff: Vector3, k: int, rest: int) -> Vector3 {
    diff.unit().scaled(rneg(rmul(k, rsub(diff.length(), rest))))
}

/// Constant acceleration, applied as a force to particles of finite mass.
#[derive(Clone, Copy, Debug, PartialEq, Eq, Structural)]
pub struct ParticleGravity {
    pub gravity: Vector3,
}

impl ParticleGravity {
    pub open spec fn applied(self, p: Particle) -> Particle {
        if p.finite_mass() {
            p.with_force(self.gravity.scaled(p.mass()))
        } else {
            p
        }
    }

    pub fn new(gravity: Vector3) -> (r: Self)
        ensures
            r.gravity == gravity,
    {
        ParticleGravity { gravity }
    }

    /// Adds `gravity * mass` to a particle of finite mass.
    pub fn update_force(&self, particle: &mut Particle, _duration: i64)
        ensures
            *final(particle) == self.applied(*old(particle)),
    {
        if particle.has_finite_mass() {
            let f = self.gravity.scale(particle.get_mass());
            particle.add_force(&f);
        }
    }
}

/// Drag growing linearly (`k1`) and quadratically (`k2`) with speed.
#[derive(Clone, Copy, Debug, PartialEq, Eq, Structural)]
pub struct ParticleDrag {
    pub k1: i64,
    pub k2: i64,
}

impl ParticleDrag {
    pub open spec fn drag_coefficient(self, speed: int) -> int {
        radd(rmul(self.k1 as int, speed), rmul(self.k2 as int, rmul(speed, speed)))
    }

    pub open spec fn applied(self, p: Particle) -> Particle {
        let speed = p.velocity.length();
        if speed == 0 {
            p
        } else {
            p.with_force(p.velocity.unit().scaled(rneg(self.drag_coefficient(speed))))
        }
    }

    pub fn new(k1: i64, k2: i64) -> (r: Self)
        ensures
            r.k1 == k1,
            r.k2 == k2,
    {
        ParticleDrag { k1, k2 }
    }

    /// Adds a force against the velocity of magnitude `k1 * speed + k2 * speed^2`;
    /// nothing when the particle is at rest.
    pub fn update_force(&self, particle: &mut Particle, _duration: i64)
        ensures
            *final(particle) == self.applied(*old(particle)),
    {
        let velocity = particle.get_velocity();
        let speed = velocity.magnitude();
        if speed != 0 {
            let mut direction = velocity;
            direction.normalize();
            let coeff = add_real(mul_real(self.k1, speed), mul_real(self.k2, mul_real(speed, speed)));
            let f = direction.scale(neg_real(coeff));
            particle.add_force(&f);
        }
    }
}

/// A spring between the particle and another one, given by its index in
/// the collection of particles.
#[derive(Clone, Copy, Debug, PartialEq, Eq, Structural)]
pub struct ParticleSpring {
    pub other: usize,
    pub spring_constant: i64,
    pub rest_length: i64,
}

impl ParticleSpring {
    /// The direction of the spring is defined: the two ends are apart.
    pub open spec fn defined_for(self, p: Particle, other: Particle) -> bool {
        p.position.minus(other.position).length() != 0
    }

    pub open spec fn applied(self, p: Particle, other: Particle) -> Particle {
        p.with_force(
            spring_force(p.position.minus(other.position), self.spring_constant as int, self.rest_length as int),
        )
    }

    pub fn new(other: usize, spring_constant: i64, rest_length: i64) -> (r: Self)
        ensures
            r.other == other,
            r.spring_constant == spring_constant,
            r.rest_length == rest_length,
    {
        ParticleSpring { other, spring_constant, rest_length }
    }

    /// Adds the spring force toward `other`.
    pub fn update_force(&self, particle: &mut Particle, other: &Particle, _duration: i64)
        requires
            self.defined_for(*old(particle), *other),
        ensures
            *final(particle) == self.applied(*old(particle), *other),
    {
        let difference = particle.get_position().sub_vector(&other.get_position());
        let mut direction = difference;
        direction.normalize();
        let distance = difference.magnitude();
        let magnitude = mul_real(self.spring_constant, abs_real(sub_real(distance, self.rest_length)));
        particle.add_force(&direction.scale(neg_real(magnitude)));
    }
}

/// A spring between the particle and a fixed point.
#[derive(Clone, Copy, Debug, PartialEq, Eq, Structural)]
pub struct ParticleAnchoredSpring {
    pub anchor: Vector3,
    pub spring_constant: i64,
    pub rest_length: i64,
}

impl ParticleAnchoredSpring {
    /// The direction of the spring is defined: the particle is off the anchor.
    pub open spec fn defined_for(self, p: Particle) -> bool {
        p.position.minus(self.anchor).length() != 0
    }

    pub open spec fn applied(self, p: Particle) -> Particle {
        p.with_force(
            spring_force(p.position.minus(self.anchor), self.spring_constant as int, self.rest_length as int),
        )
    }

    pub fn new(anchor: Vector3, spring_constant: i64, rest_length: i64) -> (r: Self)
        ensures
            r.anchor == anchor,
            r.spring_constant == spring_constant,
            r.rest_length == rest_length,
    {
        ParticleAnchoredSpring { anchor, spring_constant, rest_length }
    }

    /// Adds the spring force toward the anchor.
    pub fn update_force(&self, particle: &mut Particle, _duration: i64)
        requires
            self.defined_for(*old(particle)),
        ensures
            *final(particle) == self.applied(*old(particle)),
    {
        let difference = particle.get_position().sub_vector(&self.anchor);
        let mut direction = difference;
        direction.normalize();
        let distance = difference.magnitude();
        let magnitude = mul_real(self.spring_constant, abs_real(sub_real(distance, self.rest_length)));
        particle.add_force(&direction.scale(neg_real(magnitude)));
    }
}

/// A rope to another particle that pulls only while stretched.
#[derive(Clone, Copy, Debug, PartialEq, Eq, Structural)]
pub struct ParticleBungee {
    pub other: usize,
    pub spring_constant: i64,
    pub rest_length: i64,
}

impl ParticleBungee {
    /// The direction is defined wherever a force is due.
    pub open spec fn defined_for(self, p: Particle, other: Particle) -> bool {
        let len = p.position.minus(other.position).length();
        len <= self.rest_length || len != 0
    }

    pub open spec fn applied(self, p: Particle, other: Particle) -> Particle {
        let diff = p.position.minus(other.position);
        if diff.length() <= self.rest_length {
            p
        } else {
            p.with_force(bungee_force(diff, self.spring_constant as int, self.rest_length as int))
        }
    }

    pub fn new(other: usize, spring_constant: i64, rest_length: i64) -> (r: Self)
        ensures
            r.other == other,
            r.spring_constant == spring_constant,
            r.rest_length == rest_length,
    {
        ParticleBungee { other, spring_constant, rest_length }
    }

    /// Adds a pull toward `other` once the rope is longer than its rest length.
    pub fn update_force(&self, particle: &mut Particle, other: &Particle, _duration: i64)
        requires
            self.defined_for(*old(particle), *other),
        ensures
            *final(particle) == self.applied(*old(particle), *other),
    {
        let difference = particle.get_position().sub_vector(&other.get_position());
        let distance = difference.magnitude();
        if distance <= self.rest_length {
            return;
        }
        let mut direction = difference;
        direction.normalize();
        let magnitude = mul_real(self.spring_constant, sub_real(distance, self.rest_length));
        particle.add_force(&direction.scale(neg_real(magnitude)));
    }
}

/// Buoyancy in a liquid whose surface is the plane `y = liquid_height`.
#[derive(Clone, Copy, Debug, PartialEq, Eq, Structural)]
pub struct ParticleBuoyancy {
    /// Depth of submersion past which the force is maximal.
    pub max_depth: i64,
    /// Volume of the submerged object.
    pub volume: i64,
    pub liquid_height: i64,
    pub liquid_density: i64,
}

/// The density of water, 1000 kg/m^3.
pub const WATER_DENSITY: i64 = 1_000_000_000;

impl ParticleBuoyancy {
    pub open spec fn max_force(self) -> int {
        rmul(self.liquid_density as int, self.volume as int)
    }

    /// The upward force at height `y`: none above `liquid_height + max_depth`,
    /// the maximal force below `liquid_height - max_depth`, and in between the
    /// maximal force in proportion to the depth into that band.
    pub open spec fn force_at(self, y: int) -> int {
        let h = self.liquid_height as int;
        let d = self.max_depth as int;
        if y >= h + d {
            0
        } else if y <= h - d {
            self.max_force()
        } else {
            rmul(self.max_force(), tdiv((h + d - y) * scale(), 2 * d))
        }
    }

    pub open spec fn applied(self, p: Particle) -> Particle {
        let y = p.position.y as int;
        if y >= self.liquid_height + self.max_depth {
            p
        } else {
            p.with_force(vec3(0, self.force_at(y), 0))
        }
    }

    pub fn new(max_depth: i64, volume: i64, liquid_height: i64, liquid_density: i64) -> (r: Self)
        ensures
            r == (ParticleBuoyancy { max_depth, volume, liquid_height, liquid_density }),
    {
        ParticleBuoyancy { max_depth, volume, liquid_height, liquid_density }
    }

    /// Buoyancy in water.
    pub fn new_water(max_depth: i64, volume: i64, liquid_height: i64) -> (r: Self)
        ensures
            r == (ParticleBuoyancy { max_depth, volume, liquid_height, liquid_density: WATER_DENSITY }),
    {
        Self::new(max_depth, volume, liquid_height, WATER_DENSITY)
    }

    /// Adds the upward buoyancy force for the particle's height.
    pub fn update_force(&self, particle: &mut Particle, _duration: i64)
        ensures
            *final(particle) == self.applied(*old(particle)),
    {
        let y = particle.get_position().y as i128;
        let h = self.liquid_height as i128;
        let d = self.max_depth as i128;
        if y >= h + d {
            return;
        }
        let full = mul_real(self.liquid_density, self.volume);
        let force = if y <= h - d {
            full
        } else {
            assert(0 < (h + d - y) * 1_000_000 < 2 * d * 1_000_000) by (nonlinear_arith)
                requires
                    h - d < y < h + d,
            ;
            assert(2 * d * 1_000_000 < 0x10_0000_0000_0000_0000_0000) by (nonlinear_arith)
                requires
                    d <= i64::MAX,
            ;
            let q = crate::fixed::trunc_div((h + d - y) * 1_000_000, 2 * d);
            assert(0 <= q < 1_000_000) by (nonlinear_arith)
                requires
                    q == ((h + d - y) * 1_000_000) / (2 * d),
                    0 < (h + d - y) * 1_000_000 < 2 * d * 1_000_000,
            ;
            mul_real(full, q as i64)
        };
        particle.add_force(&Vector3::new(0, force, 0));
    }
}

/// A stiff spring to a fixed point, applied through the closed-form motion
/// of a damped oscillator over the step, which stays stable at long steps.
#[derive(Clone, Copy, Debug, PartialEq, Eq, Structural)]
pub struct ParticleFakeSpring {
    pub anchor: Vector3,
    pub spring_constant: i64,
    pub damping: i64,
}

impl ParticleFakeSpring {
    /// The angular frequency `0.5 * sqrt(4 * k * damping^2)`.
    pub open spec fn gamma(self) -> int {
        rmul(
            scale() / 2,
            rsqrt(
                rmul(rmul(4 * scale(), self.spring_constant as int), rmul(self.damping as int, self.damping as int)),
            ),
        )
    }

    /// The force that moves the particle to where the oscillator would be
    /// after `dt`.
    pub open spec fn oscillator_force(self, p: Particle, dt: int) -> Vector3 {
        let diff = p.position.minus(self.anchor);
        let gamma = self.gamma();
        let c = diff.scaled(rdiv(self.damping as int, rmul(2 * scale(), gamma))).plus(
            p.velocity.scaled(rdiv(scale(), gamma)),
        );
        let angle = rmul(gamma, dt);
        let target = diff.scaled(rcos(angle)).plus(c.scaled(rsin(angle))).scaled(
            rexp(rmul(rmul(-scale() / 2, dt), self.damping as int)),
        );
        let accel = target.minus(diff).scaled(rdiv(scale(), rmul(dt, dt))).minus(p.velocity.scaled(dt));
        accel.scaled(p.mass())
    }

    /// No force on an infinite mass, at a zero frequency, or over a step
    /// whose square is below the scalar resolution.
    pub open spec fn applied(self, p: Particle, dt: int) -> Particle {
        if !p.finite_mass() || self.gamma() == 0 || rmul(dt, dt) == 0 {
            p
        } else {
            p.with_force(self.oscillator_force(p, dt))
        }
    }

    pub fn new(anchor: Vector3, spring_constant: i64, damping: i64) -> (r: Self)
        ensures
            r == (ParticleFakeSpring { anchor, spring_constant, damping }),
    {
        ParticleFakeSpring { anchor, spring_constant, damping }
    }

    fn gamma_exec(&self) -> (r: i64)
        ensures
            r == self.gamma(),
    {
        let k4 = mul_real(4 * ONE, self.spring_constant);
        let dd = mul_real(self.damping, self.damping);
        mul_real(ONE / 2, sqrt_real(mul_real(k4, dd)))
    }

    /// Adds the force that carries the particle along the oscillator's path.
    pub fn update_force(&self, particle: &mut Particle, duration: i64)
        ensures
            *final(particle) == self.applied(*old(particle), duration as int),
    {
        if !particle.has_finite_mass() {
            return;
        }
        let gamma = self.gamma_exec();
        if gamma == 0 {
            return;
        }
        let dt2 = mul_real(duration, duration);
        if dt2 == 0 {
            return;
        }
        let difference = particle.get_position().sub_vector(&self.anchor);
        let velocity = particle.get_velocity();
        let c = difference.scale(div_real(self.damping, mul_real(2 * ONE, gamma))).add_vector(
            &velocity.scale(div_real(ONE, gamma)),
        );
        let angle = mul_real(gamma, duration);
        let target = difference.scale(cos_real(angle)).add_vector(&c.scale(sin_real(angle))).scale(
            exp_real(mul_real(mul_real(-ONE / 2, duration), self.damping)),
        );
        let accel = target.sub_vector(&difference).scale(div_real(ONE, dt2)).sub_vector(
            &velocity.scale(duration),
        );
        particle.add_force(&accel.scale(particle.get_mass()));
    }
}

/// A particle of infinite mass (zero inverse mass) is left unchanged by
/// gravity and by the fake spring.
pub proof fn lemma_infinite_mass_unaffected(p: Particle, g: ParticleGravity, f: ParticleFakeSpring, dt: int)
    requires
        p.inverse_mass == 0,
    ensures
        g.applied(p) == p,
        f.applied(p, dt) == p,
{
}

proof fn lemma_product_positive(k: int, e: int)
    requires
        0 <= k <= max_real(),
        0 <= e <= max_real(),
        k * e >= scale(),
    ensures
        rmul(k, e) > 0,
{
    assert((k * e) / 1_000_000 >= 1) by (nonlinear_arith)
        requires
            k * e >= 1_000_000,
    ;
}

/// A bungee pushes nothing while its length is at most its rest length; once
/// stretched, it pulls toward the partner with magnitude
/// `k * (distance - rest_length)`, which is positive for a positive constant
/// once that product reaches the scalar resolution.
pub proof fn lemma_bungee_slack_or_pulling(b: ParticleBungee, p: Particle, other: Particle)
    ensures
        ({
            let diff = p.position.minus(other.position);
            let len = diff.length();
            let k = b.spring_constant as int;
            let rest = b.rest_length as int;
            &&& len <= rest ==> b.applied(p, other) == p
            &&& len > rest ==> b.applied(p, other) == p.with_force(
                diff.unit().scaled(rneg(rmul(k, rsub(len, rest)))),
            )
            &&& len > rest && k >= 0 && rest >= 0 && k * (len - rest) >= scale() ==> rmul(k, rsub(len, rest)) > 0
        }),
{
    let diff = p.position.minus(other.position);
    let len = diff.length();
    let k = b.spring_constant as int;
    let rest = b.rest_length as int;
    if len > rest && k >= 0 && rest >= 0 && k * (len - rest) >= scale() {
        assert(0 <= len <= max_real()) by {
            lemma_sqrt_range(diff.square_length());
        }
        lemma_product_positive(k, len - rest);
    }
}

/// A spring, anchored or between two particles, pulls toward the other end
/// with magnitude `k * |distance - rest_length|`, compressed or stretched;
/// that magnitude is positive for a positive constant whenever the distance
/// differs from the rest length by enough for the product to reach the
/// scalar resolution.
pub proof fn lemma_spring_restoring(s: ParticleSpring, a: ParticleAnchoredSpring, p: Particle, other: Particle)
    ensures
        s.applied(p, other) == p.with_force(
            p.position.minus(other.position).unit().scaled(
                rneg(rmul(s.spring_constant as int, rabs(rsub(p.position.minus(other.position).length(), s.rest_length as int)))),
            ),
        ),
        a.applied(p) == p.with_force(
            p.position.minus(a.anchor).unit().scaled(
                rneg(rmul(a.spring_constant as int, rabs(rsub(p.position.minus(a.anchor).length(), a.rest_length as int)))),
            ),
        ),
        ({
            let len = p.position.minus(other.position).length();
            let k = s.spring_constant as int;
            let e = rabs(rsub(len, s.rest_length as int));
            k >= 0 && len != s.rest_length && k * e >= scale() ==> rmul(k, e) > 0
        }),
{
    let len = p.position.minus(other.position).length();
    let k = s.spring_constant as int;
    let e = rabs(rsub(len, s.rest_length as int));
    if k >= 0 && len != s.rest_length && k * e >= scale() {
        lemma_product_positive(k, e);
    }
}

proof fn lemma_sqrt_range(a: int)
    requires
        a <= max_real(),
    ensures
        0 <= rsqrt(a) <= max_real(),
{
    if a > 0 {
        let n = a * scale();
        let r = isqrt(n);
        assert(exists|x: int| is_isqrt(n, x)) by {
            lemma_isqrt_exists(n);
        }
        assert(is_isqrt(n, r));
        if a <= max_real() {
            assert(r < 0x8000_0000_0000) by (nonlinear_arith)
                requires
                    r * r <= n,
                    n == a * 1_000_000,
                    a <= i64::MAX,
                    r >= 0,
            ;
        }
    }
}

proof fn lemma_rmul_monotonic(m: int, q1: int, q2: int)
    requires
        0 <= m <= max_real(),
        0 <= q1 <= q2 <= scale(),
    ensures
        0 <= rmul(m, q1) <= rmul(m, q2) <= m,
{
    assert(0 <= m * q1 <= m * q2 <= m * 1_000_000) by (nonlinear_arith)
        requires
            0 <= m,
            0 <= q1 <= q2 <= 1_000_000,
    ;
    assert(0 <= (m * q1) / 1_000_000 <= (m * q2) / 1_000_000 <= (m * 1_000_000) / 1_000_000) by {
        lemma_div_is_ordered(m * q1, m * q2, 1_000_000);
        lemma_div_is_ordered(m * q2, m * 1_000_000, 1_000_000);
        lemma_div_pos_is_pos(m * q1, 1_000_000);
    }
    assert((m * 1_000_000) / 1_000_000 == m) by (nonlinear_arith);
}

/// Buoyancy does not decrease as the particle goes deeper, stays at least
/// zero, and saturates at `density * volume` once fully submerged (below
/// the surface band).
pub proof fn lemma_buoyancy_monotonic(b: ParticleBuoyancy, y1: int, y2: int)
    requires
        b.liquid_density >= 0,
        b.volume >= 0,
        y2 <= y1,
    ensures
        0 <= b.force_at(y1) <= b.force_at(y2) <= b.max_force(),
        y2 < b.liquid_height + b.max_depth && y2 <= b.liquid_height - b.max_depth ==> b.force_at(y2)
            == b.max_force(),
{
    let m = b.max_force();
    let h = b.liquid_height as int;
    let d = b.max_depth as int;
    assert(0 <= b.liquid_density * b.volume) by (nonlinear_arith)
        requires
            b.liquid_density >= 0,
            b.volume >= 0,
    ;
    assert(0 <= m <= max_real());
    lemma_rmul_monotonic(m, scale(), scale());
    if h - d < y1 < h + d || h - d < y2 < h + d {
        assert(d > 0);
        let n1 = (h + d - y1) * scale();
        let n2 = (h + d - y2) * scale();
        if h - d < y1 < h + d {
            assert(0 < n1 < 2 * d * scale()) by (nonlinear_arith)
                requires
                    n1 == (h + d - y1) * 1_000_000,
                    h - d < y1 < h + d,
            ;
            lemma_div_is_ordered(n1, 2 * d * scale(), 2 * d);
            lemma_div_pos_is_pos(n1, 2 * d);
            assert((2 * d * scale()) / (2 * d) == scale()) by (nonlinear_arith)
                requires
                    d > 0,
            ;
        }
        if h - d < y2 < h + d {
            assert(0 < n2 < 2 * d * scale()) by (nonlinear_arith)
                requires
                    n2 == (h + d - y2) * 1_000_000,
                    h - d < y2 < h + d,
            ;
            lemma_div_is_ordered(n2, 2 * d * scale(), 2 * d);
            assert((2 * d * scale()) / (2 * d) == scale()) by (nonlinear_arith)
                requires
                    d > 0,
            ;
        }
        if h - d < y1 < h + d && h - d < y2 < h + d {
            assert(n1 <= n2) by (nonlinear_arith)
                requires
                    n1 == (h + d - y1) * 1_000_000,
                    n2 == (h + d - y2) * 1_000_000,
                    y2 <= y1,
            ;
            lemma_div_is_ordered(n1, n2, 2 * d);
            lemma_rmul_monotonic(m, n1 / (2 * d), n2 / (2 * d));
        } else if h - d < y1 < h + d {
            lemma_rmul_monotonic(m, n1 / (2 * d), scale());
        } else {
            lemma_rmul_monotonic(m, 0, n2 / (2 * d));
        }
    }
}

} // verus!
