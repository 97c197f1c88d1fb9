//! A point mass and its integration over time.
use vstd::prelude::*;

use crate::fixed::{
    div_real, lemma_mul_one, lemma_pow_of_one, lemma_pow_one, max_real, pow_real, rdiv, rpow, scale,
    tdiv, ONE,
};
use crate::vector3::{zero_vector, Vector3};

verus! {

/// A point mass with position, velocity, a base acceleration, the force
/// accumulated for the next step, velocity damping and inverse mass.
///
/// `damping` is the proportion of velocity kept per unit of time.
/// An inverse mass of zero stands for an infinite, immovable mass.
#[derive(Clone, Copy, Debug, PartialEq, Eq, Structural)]
pub struct Particle {
    pub position: Vector3,
    pub velocity: Vector3,
    pub acceleration: Vector3,
    pub force_accum: Vector3,
    pub damping: i64,
    pub inverse_mass: i64,
}

impl Particle {
    /// The particle after one step of length `dt`: position moves by the
    /// starting velocity, velocity gains the base acceleration plus the
    /// accumulated force times the inverse mass, is damped by
    /// `damping ^ dt`, and the accumulator is emptied.
    pub open spec fn integrated(self, dt: int) -> Particle {
        let resultant = self.acceleration.plus_scaled(self.force_accum, self.inverse_mass as int);
        let v = self.velocity.plus_scaled(resultant, dt);
        Particle {
            position: self.position.plus_scaled(self.velocity, dt),
            velocity: v.scaled(rpow(self.damping as int, dt)),
            force_accum: zero_vector(),
            ..self
        }
    }

    /// The particle with `f` added to its force accumulator.
    pub open spec fn with_force(self, f: Vector3) -> Particle {
        Particle { force_accum: self.force_accum.plus(f), ..self }
    }

    pub open spec fn finite_mass(self) -> bool {
        self.inverse_mass != 0
    }

    /// The mass; the largest scalar stands for infinity.
    pub open spec fn mass(self) -> int {
        if self.inverse_mass == 0 {
            max_real()
        } else {
            rdiv(scale(), self.inverse_mass as int)
        }
    }

    /// A particle at rest at the origin, with no damping and infinite mass.
    pub fn new() -> (r: Self)
        ensures
            r.position == zero_vector(),
            r.velocity == zero_vector(),
            r.acceleration == zero_vector(),
            r.force_accum == zero_vector(),
            r.damping == 0,
            r.inverse_mass == 0,
    {
        Particle {
            position: Vector3::zero(),
            velocity: Vector3::zero(),
            acceleration: Vector3::zero(),
            force_accum: Vector3::zero(),
            damping: 0,
            inverse_mass: 0,
        }
    }

    /// Advances the particle by `duration`, then clears the accumulator.
    pub fn integrate(&mut self, duration: i64)
        requires
            duration > 0,
        ensures
            *final(self) == old(self).integrated(duration as int),
    {
        self.position.add_scaled_vector(&self.velocity, duration);
        let mut resultant = self.acceleration;
        resultant.add_scaled_vector(&self.force_accum, self.inverse_mass);
        self.velocity.add_scaled_vector(&resultant, duration);
        self.velocity = self.velocity.scale(pow_real(self.damping, duration));
        self.clear_accumulator();
    }

    /// Adds a force, which acts at the next integration step.
    pub fn add_force(&mut self, force: &Vector3)
        ensures
            *final(self) == old(self).with_force(*force),
    {
        self.force_accum = self.force_accum.add_vector(force);
    }

    /// The mass, or the largest scalar (infinity) if the inverse mass is zero.
    pub fn get_mass(&self) -> (r: i64)
        ensures
            r == self.mass(),
    {
        if self.inverse_mass == 0 {
            i64::MAX
        } else {
            div_real(ONE, self.inverse_mass)
        }
    }

    /// Sets the mass, which must not be zero.
    pub fn set_mass(&mut self, mass: i64)
        requires
            mass != 0,
        ensures
            *final(self) == (Particle { inverse_mass: rdiv(scale(), mass as int) as i64, ..*old(self) }),
    {
        self.inverse_mass = div_real(ONE, mass);
    }

    pub fn get_inverse_mass(&self) -> (r: i64)
        ensures
            r == self.inverse_mass,
    {
        self.inverse_mass
    }

    pub fn set_inverse_mass(&mut self, inverse_mass: i64)
        ensures
            *final(self) == (Particle { inverse_mass, ..*old(self) }),
    {
        self.inverse_mass = inverse_mass;
    }

    /// Whether the inverse mass is non-zero.
    pub fn has_finite_mass(&self) -> (r: bool)
        ensures
            r == self.finite_mass(),
    {
        self.inverse_mass != 0
    }

    pub fn get_position(&self) -> (r: Vector3)
        ensures
            r == self.position,
    {
        self.position
    }

    pub fn get_velocity(&self) -> (r: Vector3)
        ensures
            r == self.velocity,
    {
        self.velocity
    }

    pub fn get_acceleration(&self) -> (r: Vector3)
        ensures
            r == self.acceleration,
    {
        self.acceleration
    }

    pub fn get_force_accum(&self) -> (r: Vector3)
        ensures
            r == self.force_accum,
    {
        self.force_accum
    }

    pub fn set_position(&mut self, x: i64, y: i64, z: i64)
        ensures
            *final(self) == (Particle { position: Vector3 { x, y, z }, ..*old(self) }),
    {
        self.position = Vector3::new(x, y, z);
    }

    pub fn set_velocity(&mut self, x: i64, y: i64, z: i64)
        ensures
            *final(self) == (Particle { velocity: Vector3 { x, y, z }, ..*old(self) }),
    {
        self.velocity = Vector3::new(x, y, z);
    }

    pub fn set_acceleration(&mut self, x: i64, y: i64, z: i64)
        ensures
            *final(self) == (Particle { acceleration: Vector3 { x, y, z }, ..*old(self) }),
    {
        self.acceleration = Vector3::new(x, y, z);
    }

    pub fn get_damping(&self) -> (r: i64)
        ensures
            r == self.damping,
    {
        self.damping
    }

    pub fn set_damping(&mut self, damping: i64)
        ensures
            *final(self) == (Particle { damping, ..*old(self) }),
    {
        self.damping = damping;
    }

    /// Empties the force accumulator.
    pub fn clear_accumulator(&mut self)
        ensures
            *final(self) == (Particle { force_accum: zero_vector(), ..*old(self) }),
    {
        self.force_accum = Vector3::zero();
    }
}

impl Default for Particle {
    fn default() -> (r: Self)
        ensures
            r == (Particle {
                position: zero_vector(),
                velocity: zero_vector(),
                acceleration: zero_vector(),
                force_accum: zero_vector(),
                damping: 0,
                inverse_mass: 0,
            }),
    {
        Particle::new()
    }
}

/// Without forces, base acceleration or damping loss, a particle moves at
/// constant velocity: one step of `dt` adds `velocity * dt` to its position
/// and leaves its velocity unchanged.
pub proof fn lemma_free_motion(p: Particle, dt: int)
    requires
        dt > 0,
        p.acceleration == zero_vector(),
        p.force_accum == zero_vector(),
        p.damping == ONE,
        p.velocity.in_range(),
    ensures
        p.integrated(dt).position == p.position.plus_scaled(p.velocity, dt),
        p.integrated(dt).velocity == p.velocity,
        p.integrated(dt).force_accum == zero_vector(),
{
    lemma_pow_of_one(dt);
    lemma_mul_one(p.velocity.x as int);
    lemma_mul_one(p.velocity.y as int);
    lemma_mul_one(p.velocity.z as int);
    assert(0 * p.inverse_mass == 0);
    assert(0 * dt == 0);
}

/// Without forces or base acceleration, one step of one unit of time with a
/// damping of one half halves the velocity (truncating toward zero).
pub proof fn lemma_half_damping(p: Particle)
    requires
        p.acceleration == zero_vector(),
        p.force_accum == zero_vector(),
        p.damping == ONE / 2,
        p.velocity.in_range(),
    ensures
        p.integrated(scale()).velocity == (Vector3 {
            x: tdiv(p.velocity.x as int, 2) as i64,
            y: tdiv(p.velocity.y as int, 2) as i64,
            z: tdiv(p.velocity.z as int, 2) as i64,
        }),
{
    lemma_pow_one(ONE / 2);
    assert(0 * p.inverse_mass == 0);
    assert(0 * scale() == 0);
    let v = p.velocity;
    assert(tdiv(v.x * 500_000, 1_000_000) == tdiv(v.x as int, 2)) by (nonlinear_arith);
    assert(tdiv(v.y * 500_000, 1_000_000) == tdiv(v.y as int, 2)) by (nonlinear_arith);
    assert(tdiv(v.z * 500_000, 1_000_000) == tdiv(v.z as int, 2)) by (nonlinear_arith);
}

} // verus!
