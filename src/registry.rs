//! The closed set of force generators, and the registry that binds them to
//! particles and applies them once per step.
//!
//! Particles and generators live in caller-owned collections and are named
//! by index, so that several generators may read and push on one particle.
use vstd::prelude::*;

use crate::forces::{
    ParticleAnchoredSpring, ParticleBungee, ParticleBuoyancy, ParticleDrag, ParticleFakeSpring,
    ParticleGravity, ParticleSpring,
};
use crate::particle::Particle;

verus! {

/// Any of the force generators.
#[derive(Clone, Copy, Debug, PartialEq, Eq, Structural)]
pub enum ParticleForceGenerator {
    Gravity(ParticleGravity),
    Drag(ParticleDrag),
    Spring(ParticleSpring),
    AnchoredSpring(ParticleAnchoredSpring),
    Bungee(ParticleBungee),
    Buoyancy(ParticleBuoyancy),
    FakeSpring(ParticleFakeSpring),
}

impl ParticleForceGenerator {
    /// The generator can act on `ps[target]`: a partner index names a
    /// particle, and a direction the force needs is defined.
    pub open spec fn ready(self, ps: Seq<Particle>, target: int) -> bool {
        &&& 0 <= target < ps.len()
        &&& match self {
            ParticleForceGenerator::Spring(s) => s.other < ps.len() && s.defined_for(ps[target], ps[s.other as int]),
            ParticleForceGenerator::Bungee(b) => b.other < ps.len() && b.defined_for(ps[target], ps[b.other as int]),
            ParticleForceGenerator::AnchoredSpring(a) => a.defined_for(ps[target]),
            _ => true,
        }
    }

    /// `ps[target]` once the generator has pushed its force on it.
    pub open spec fn applied(self, ps: Seq<Particle>, target: int, dt: int) -> Particle {
        let p = ps[target];
        match self {
            ParticleForceGenerator::Gravity(g) => g.applied(p),
            ParticleForceGenerator::Drag(d) => d.applied(p),
            ParticleForceGenerator::Spring(s) => s.applied(p, ps[s.other as int]),
            ParticleForceGenerator::AnchoredSpring(a) => a.applied(p),
            ParticleForceGenerator::Bungee(b) => b.applied(p, ps[b.other as int]),
            ParticleForceGenerator::Buoyancy(b) => b.applied(p),
            ParticleForceGenerator::FakeSpring(f) => f.applied(p, dt),
        }
    }

    /// Adds this generator's force to `particles[target]`, and to no other particle.
    pub fn update_force(&self, particles: &mut Vec<Particle>, target: usize, duration: i64)
        requires
            self.ready(old(particles)@, target as int),
        ensures
            final(particles)@ == old(particles)@.update(
                target as int,
                self.applied(old(particles)@, target as int, duration as int),
            ),
    {
        let mut p = particles[target];
        match self {
            ParticleForceGenerator::Gravity(g) => g.update_force(&mut p, duration),
            ParticleForceGenerator::Drag(d) => d.update_force(&mut p, duration),
            ParticleForceGenerator::Spring(s) => {
                let other = particles[s.other];
                s.update_force(&mut p, &other, duration);
            },
            ParticleForceGenerator::AnchoredSpring(a) => a.update_force(&mut p, duration),
            ParticleForceGenerator::Bungee(b) => {
                let other = particles[b.other];
                b.update_force(&mut p, &other, duration);
            },
            ParticleForceGenerator::Buoyancy(b) => b.update_force(&mut p, duration),
            ParticleForceGenerator::FakeSpring(f) => f.update_force(&mut p, duration),
        }
        particles.set(target, p);
    }
}

/// The particles after the registrations `regs` have acted in order.
pub open spec fn apply_registrations(
    regs: Seq<(usize, usize)>,
    gens: Seq<ParticleForceGenerator>,
    ps: Seq<Particle>,
    dt: int,
) -> Seq<Particle>
    decreases regs.len(),
{
    if regs.len() == 0 {
        ps
    } else {
        let prev = apply_registrations(regs.drop_last(), gens, ps, dt);
        let (p, g) = regs.last();
        prev.update(p as int, gens[g as int].applied(prev, p as int, dt))
    }
}

/// Every registration names a particle and a generator that can act on it.
pub open spec fn registrations_ready(
    regs: Seq<(usize, usize)>,
    gens: Seq<ParticleForceGenerator>,
    ps: Seq<Particle>,
) -> bool {
    forall|i: int|
        0 <= i < regs.len() ==> {
            let (p, g) = #[trigger] regs[i];
            g < gens.len() && gens[g as int].ready(ps, p as int)
        }
}

/// The position of the first registration equal to `(p, g)`, if any.
pub open spec fn first_match(regs: Seq<(usize, usize)>, p: usize, g: usize) -> Option<int> {
    if exists|i: int| 0 <= i < regs.len() && regs[i] == (p, g) {
        Some(choose|i: int| 0 <= i < regs.len() && regs[i] == (p, g)
            && forall|j: int| 0 <= j < i ==> regs[j] != (p, g))
    } else {
        None
    }
}

/// A matching registration with no match before it is the first match.
pub proof fn lemma_first_match(regs: Seq<(usize, usize)>, p: usize, g: usize, i: int)
    requires
        0 <= i < regs.len(),
        regs[i] == (p, g),
        forall|j: int| 0 <= j < i ==> regs[j] != (p, g),
    ensures
        first_match(regs, p, g) == Some(i),
{
    let k = choose|k: int| 0 <= k < regs.len() && regs[k] == (p, g)
        && forall|j: int| 0 <= j < k ==> regs[j] != (p, g);
    assert(k == i) by {
        if k > i {
            assert(regs[i] != (p, g));
        }
    }
}

/// Pairs of (particle index, generator index), kept in the order they were added.
pub struct ParticleForceRegistry {
    registrations: Vec<(usize, usize)>,
}

impl ParticleForceRegistry {
    pub closed spec fn view(&self) -> Seq<(usize, usize)> {
        self.registrations@
    }

    /// The registrations, in the order they act.
    pub fn registrations(&self) -> (r: &Vec<(usize, usize)>)
        ensures
            r@ == self.view(),
    {
        &self.registrations
    }

    /// An empty registry.
    pub fn new() -> (r: Self)
        ensures
            r.view() == Seq::<(usize, usize)>::empty(),
    {
        ParticleForceRegistry { registrations: Vec::new() }
    }

    /// Registers generator `generator` to act on particle `particle`;
    /// a pair added twice acts twice.
    pub fn add(&mut self, particle: usize, generator: usize)
        ensures
            final(self).view() == old(self).view().push((particle, generator)),
    {
        self.registrations.push((particle, generator));
    }

    /// Removes the first registration of the pair, if there is one.
    pub fn remove(&mut self, particle: usize, generator: usize)
        ensures
            match first_match(old(self).view(), particle, generator) {
                Some(i) => final(self).view() == old(self).view().remove(i),
                None => final(self).view() == old(self).view(),
            },
    {
        let mut i: usize = 0;
        while i < self.registrations.len()
            invariant
                self.registrations@ == old(self).registrations@,
                0 <= i <= self.registrations@.len(),
                forall|j: int| 0 <= j < i ==> self.registrations@[j] != (particle, generator),
            decreases self.registrations@.len() - i,
        {
            let (p, g) = self.registrations[i];
            if p == particle && g == generator {
                proof {
                    lemma_first_match(self.registrations@, particle, generator, i as int);
                }
                self.registrations.remove(i);
                return;
            }
            i += 1;
        }
    }

    /// Removes every registration.
    pub fn clear(&mut self)
        ensures
            final(self).view() == Seq::<(usize, usize)>::empty(),
    {
        self.registrations.clear();
    }

    /// Applies every registered generator to its particle, in the order of
    /// registration.
    pub fn update_forces(&self, particles: &mut Vec<Particle>, generators: &Vec<ParticleForceGenerator>, duration: i64)
        requires
            registrations_ready(self.view(), generators@, old(particles)@),
        ensures
            final(particles)@ == apply_registrations(self.view(), generators@, old(particles)@, duration as int),
    {
        let ghost start = particles@;
        let mut i: usize = 0;
        while i < self.registrations.len()
            invariant
                0 <= i <= self.registrations@.len(),
                registrations_ready(self.registrations@, generators@, start),
                particles@ == apply_registrations(self.registrations@.take(i as int), generators@, start, duration as int),
                particles@.len() == start.len(),
                forall|j: int| 0 <= j < start.len() ==> (#[trigger] particles@[j]).position == start[j].position,
            decreases self.registrations@.len() - i,
        {
            let (p, g) = self.registrations[i];
            assert(self.registrations@.take(i as int + 1).drop_last() == self.registrations@.take(i as int));
            proof {
                let (pp, gg) = self.registrations@[i as int];
                assert(gg < generators@.len() && generators@[gg as int].ready(start, pp as int));
            }
            generators[g].update_force(particles, p, duration);
            i += 1;
        }
        assert(self.registrations@.take(i as int) == self.registrations@);
    }
}

} // verus!
