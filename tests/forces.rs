use phys_buzz::forces::WATER_DENSITY;
use phys_buzz::{
    Particle, ParticleAnchoredSpring, ParticleBungee, ParticleBuoyancy, ParticleDrag,
    ParticleFakeSpring, ParticleForceGenerator, ParticleForceRegistry, ParticleGravity,
    ParticleSpring, Vector3, ONE,
};

fn v(x: i64, y: i64, z: i64) -> Vector3 {
    Vector3::new(x * ONE, y * ONE, z * ONE)
}

fn particle_at(x: i64, y: i64, z: i64) -> Particle {
    let mut p = Particle::new();
    p.set_position(x * ONE, y * ONE, z * ONE);
    p.set_mass(ONE);
    p.set_damping(ONE);
    p
}

#[test]
fn gravity_scales_by_mass() {
    let g = ParticleGravity::new(Vector3::new(0, -9_800_000, 0));
    let mut p = particle_at(0, 0, 0);
    p.set_mass(2 * ONE);
    g.update_force(&mut p, ONE);
    assert_eq!(p.get_force_accum(), Vector3::new(0, -19_600_000, 0));
}

#[test]
fn gravity_skips_infinite_mass() {
    let g = ParticleGravity::new(Vector3::new(0, -9_800_000, 0));
    let mut p = particle_at(1, 2, 3);
    p.set_inverse_mass(0);
    let before = p;
    g.update_force(&mut p, ONE);
    assert_eq!(p, before);
}

#[test]
fn fake_spring_skips_infinite_mass() {
    let f = ParticleFakeSpring::new(Vector3::zero(), 5 * ONE, ONE / 2);
    let mut p = particle_at(1, 0, 0);
    p.set_inverse_mass(0);
    let before = p;
    f.update_force(&mut p, ONE / 10);
    assert_eq!(p, before);
}

#[test]
fn fake_spring_pulls_toward_anchor() {
    let f = ParticleFakeSpring::new(Vector3::zero(), 5 * ONE, ONE / 2);
    let mut p = particle_at(1, 0, 0);
    f.update_force(&mut p, ONE / 10);
    let force = p.get_force_accum();
    assert!(force.x < 0);
    assert_eq!(force.y, 0);
    assert_eq!(force.z, 0);
}

#[test]
fn fake_spring_without_damping_is_inert() {
    let f = ParticleFakeSpring::new(Vector3::zero(), 5 * ONE, 0);
    let mut p = particle_at(1, 0, 0);
    let before = p;
    f.update_force(&mut p, ONE / 10);
    assert_eq!(p, before);
}

#[test]
fn drag_opposes_velocity() {
    let d = ParticleDrag::new(ONE, ONE);
    let mut p = particle_at(0, 0, 0);
    p.set_velocity(2 * ONE, 0, 0);
    d.update_force(&mut p, ONE);
    assert_eq!(p.get_force_accum(), v(-6, 0, 0));
}

#[test]
fn drag_at_rest_is_no_op() {
    let d = ParticleDrag::new(ONE, ONE);
    let mut p = particle_at(0, 0, 0);
    let before = p;
    d.update_force(&mut p, ONE);
    assert_eq!(p, before);
}

#[test]
fn spring_pulls_when_stretched_and_compressed() {
    let other = particle_at(0, 0, 0);
    let stretched = ParticleSpring::new(1, 2 * ONE, ONE);
    let mut p = particle_at(3, 0, 0);
    stretched.update_force(&mut p, &other, ONE);
    assert_eq!(p.get_force_accum(), v(-4, 0, 0));
    let compressed = ParticleSpring::new(1, 2 * ONE, 5 * ONE);
    let mut q = particle_at(3, 0, 0);
    compressed.update_force(&mut q, &other, ONE);
    assert_eq!(q.get_force_accum(), v(-4, 0, 0));
    let relaxed = ParticleSpring::new(1, 2 * ONE, 3 * ONE);
    let mut r = particle_at(3, 0, 0);
    relaxed.update_force(&mut r, &other, ONE);
    assert_eq!(r.get_force_accum(), Vector3::zero());
}

#[test]
fn anchored_spring_pulls_toward_anchor() {
    let s = ParticleAnchoredSpring::new(v(0, 1, 0), 3 * ONE, ONE);
    let mut p = particle_at(0, 5, 0);
    s.update_force(&mut p, ONE);
    assert_eq!(p.get_force_accum(), v(0, -9, 0));
    let compressed = ParticleAnchoredSpring::new(v(0, 1, 0), 3 * ONE, 6 * ONE);
    let mut q = particle_at(0, 5, 0);
    compressed.update_force(&mut q, ONE);
    assert_eq!(q.get_force_accum(), v(0, -6, 0));
}

#[test]
fn bungee_is_slack_until_stretched() {
    let other = particle_at(0, 0, 0);
    let slack = ParticleBungee::new(1, 2 * ONE, 5 * ONE);
    let mut p = particle_at(3, 0, 0);
    let before = p;
    slack.update_force(&mut p, &other, ONE);
    assert_eq!(p, before);
    let at_rest = ParticleBungee::new(1, 2 * ONE, 3 * ONE);
    at_rest.update_force(&mut p, &other, ONE);
    assert_eq!(p, before);
    let taut = ParticleBungee::new(1, 2 * ONE, ONE);
    taut.update_force(&mut p, &other, ONE);
    assert_eq!(p.get_force_accum(), v(-4, 0, 0));
    let mut coincident = particle_at(0, 0, 0);
    slack.update_force(&mut coincident, &other, ONE);
    assert_eq!(coincident.get_force_accum(), Vector3::zero());
}

#[test]
fn buoyancy_regimes() {
    let b = ParticleBuoyancy::new(ONE, 2 * ONE, 0, 1000 * ONE);
    let mut above = particle_at(0, 2, 0);
    b.update_force(&mut above, ONE);
    assert_eq!(above.get_force_accum(), Vector3::zero());
    let mut edge = particle_at(0, 1, 0);
    b.update_force(&mut edge, ONE);
    assert_eq!(edge.get_force_accum(), Vector3::zero());
    let mut half = particle_at(0, 0, 0);
    b.update_force(&mut half, ONE);
    assert_eq!(half.get_force_accum(), v(0, 1000, 0));
    let mut quarter = particle_at(0, 0, 0);
    quarter.set_position(0, ONE / 2, 0);
    b.update_force(&mut quarter, ONE);
    assert_eq!(quarter.get_force_accum(), v(0, 500, 0));
    let mut deep = particle_at(0, -2, 0);
    b.update_force(&mut deep, ONE);
    assert_eq!(deep.get_force_accum(), v(0, 2000, 0));
    let mut bottom = particle_at(0, -1, 0);
    b.update_force(&mut bottom, ONE);
    assert_eq!(bottom.get_force_accum(), v(0, 2000, 0));
}

#[test]
fn buoyancy_grows_with_depth() {
    let b = ParticleBuoyancy::new_water(ONE, ONE / 1000, 3 * ONE);
    assert_eq!(b.liquid_density, WATER_DENSITY);
    let mut last = 0;
    let mut y = 5 * ONE;
    while y >= ONE {
        let mut p = particle_at(0, 0, 0);
        p.set_position(0, y, 0);
        b.update_force(&mut p, ONE);
        let f = p.get_force_accum().y;
        assert!(f >= last);
        assert!(f <= ONE);
        last = f;
        y -= ONE / 8;
    }
    assert_eq!(last, ONE);
}

#[test]
fn registry_gravity_step() {
    let mut particles = vec![particle_at(0, 0, 0)];
    let generators = vec![ParticleForceGenerator::Gravity(ParticleGravity::new(Vector3::new(
        0, -9_800_000, 0,
    )))];
    let mut registry = ParticleForceRegistry::new();
    registry.add(0, 0);
    registry.update_forces(&mut particles, &generators, ONE);
    assert_eq!(particles[0].get_force_accum(), Vector3::new(0, -9_800_000, 0));
    particles[0].integrate(ONE);
    assert_eq!(particles[0].get_force_accum(), Vector3::zero());
    assert_eq!(particles[0].get_velocity(), Vector3::new(0, -9_800_000, 0));
}

#[test]
fn registry_add_remove_clear() {
    let mut registry = ParticleForceRegistry::new();
    registry.add(0, 1);
    registry.add(2, 3);
    registry.add(0, 1);
    assert_eq!(registry.registrations().clone(), vec![(0, 1), (2, 3), (0, 1)]);
    registry.remove(0, 1);
    assert_eq!(registry.registrations().clone(), vec![(2, 3), (0, 1)]);
    registry.remove(5, 5);
    assert_eq!(registry.registrations().clone(), vec![(2, 3), (0, 1)]);
    registry.clear();
    assert!(registry.registrations().is_empty());
}

#[test]
fn registry_duplicates_apply_twice() {
    let mut particles = vec![particle_at(0, 0, 0)];
    let generators = vec![ParticleForceGenerator::Gravity(ParticleGravity::new(v(0, -1, 0)))];
    let mut registry = ParticleForceRegistry::new();
    registry.add(0, 0);
    registry.add(0, 0);
    registry.update_forces(&mut particles, &generators, ONE);
    assert_eq!(particles[0].get_force_accum(), v(0, -2, 0));
}

#[test]
fn registry_two_body_spring() {
    let mut particles = vec![particle_at(3, 0, 0), particle_at(0, 0, 0)];
    let generators = vec![
        ParticleForceGenerator::Spring(ParticleSpring::new(1, 2 * ONE, ONE)),
        ParticleForceGenerator::Spring(ParticleSpring::new(0, 2 * ONE, ONE)),
    ];
    let mut registry = ParticleForceRegistry::new();
    registry.add(0, 0);
    registry.add(1, 1);
    registry.update_forces(&mut particles, &generators, ONE);
    assert_eq!(particles[0].get_force_accum(), v(-4, 0, 0));
    assert_eq!(particles[1].get_force_accum(), v(4, 0, 0));
    assert_eq!(particles[0].get_position(), v(3, 0, 0));
}

#[test]
fn generator_touches_only_its_target() {
    let mut particles = vec![particle_at(0, 0, 0), particle_at(1, 1, 1)];
    let g = ParticleForceGenerator::Drag(ParticleDrag::new(ONE, 0));
    particles[1].set_velocity(0, 0, ONE);
    g.update_force(&mut particles, 1, ONE);
    assert_eq!(particles[0].get_force_accum(), Vector3::zero());
    assert_eq!(particles[1].get_force_accum(), v(0, 0, -1));
}
