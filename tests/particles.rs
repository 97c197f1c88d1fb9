use phys_buzz::{Particle, Vector3, ONE};

fn v(x: i64, y: i64, z: i64) -> Vector3 {
    Vector3::new(x * ONE, y * ONE, z * ONE)
}

#[test]
fn new_particle_is_at_rest_with_infinite_mass() {
    let p = Particle::new();
    assert_eq!(p.get_position(), Vector3::zero());
    assert_eq!(p.get_velocity(), Vector3::zero());
    assert_eq!(p.get_acceleration(), Vector3::zero());
    assert_eq!(p.get_force_accum(), Vector3::zero());
    assert_eq!(p.get_damping(), 0);
    assert_eq!(p.get_inverse_mass(), 0);
    assert!(!p.has_finite_mass());
    assert_eq!(p.get_mass(), i64::MAX);
    assert_eq!(Particle::default(), p);
}

#[test]
fn mass_is_stored_inverted() {
    let mut p = Particle::new();
    p.set_mass(2 * ONE);
    assert_eq!(p.get_inverse_mass(), ONE / 2);
    assert_eq!(p.get_mass(), 2 * ONE);
    assert!(p.has_finite_mass());
    p.set_inverse_mass(0);
    assert!(!p.has_finite_mass());
    p.set_inverse_mass(ONE / 4);
    assert_eq!(p.get_mass(), 4 * ONE);
}

#[test]
fn setters_assign_only_their_field() {
    let mut p = Particle::new();
    p.set_position(1, 2, 3);
    p.set_velocity(4, 5, 6);
    p.set_acceleration(7, 8, 9);
    p.set_damping(ONE / 2);
    assert_eq!(p.get_position(), Vector3::new(1, 2, 3));
    assert_eq!(p.get_velocity(), Vector3::new(4, 5, 6));
    assert_eq!(p.get_acceleration(), Vector3::new(7, 8, 9));
    assert_eq!(p.get_damping(), ONE / 2);
    assert_eq!(p.get_force_accum(), Vector3::zero());
}

#[test]
fn forces_accumulate_until_cleared() {
    let mut p = Particle::new();
    p.add_force(&v(1, 2, 3));
    p.add_force(&v(1, -2, 0));
    assert_eq!(p.get_force_accum(), v(2, 0, 3));
    p.clear_accumulator();
    assert_eq!(p.get_force_accum(), Vector3::zero());
}

#[test]
fn constant_velocity_without_forces() {
    let mut p = Particle::new();
    p.set_position(ONE, 2 * ONE, -ONE);
    p.set_velocity(3 * ONE, -4 * ONE, ONE / 2);
    p.set_damping(ONE);
    p.set_mass(ONE);
    p.integrate(ONE / 2);
    assert_eq!(p.get_position(), Vector3::new(5 * ONE / 2, 0, -3 * ONE / 4));
    assert_eq!(p.get_velocity(), Vector3::new(3 * ONE, -4 * ONE, ONE / 2));
}

#[test]
fn half_damping_halves_velocity() {
    let mut p = Particle::new();
    p.set_velocity(10 * ONE, -6 * ONE, 0);
    p.set_damping(ONE / 2);
    p.set_mass(ONE);
    p.integrate(ONE);
    assert_eq!(p.get_velocity(), v(5, -3, 0));
    assert_eq!(p.get_position(), v(10, -6, 0));
}

#[test]
fn ballistic_step() {
    let mut p = Particle::new();
    p.set_mass(2 * ONE);
    p.set_velocity(0, 35 * ONE, 0);
    p.set_acceleration(0, -ONE, 0);
    p.set_damping(99 * ONE / 100);
    p.integrate(ONE);
    assert_eq!(p.get_position(), v(0, 35, 0));
    assert_eq!(p.get_velocity(), Vector3::new(0, 33_660_000, 0));
}

#[test]
fn accumulated_force_is_scaled_by_inverse_mass() {
    let mut p = Particle::new();
    p.set_mass(2 * ONE);
    p.set_damping(ONE);
    p.add_force(&v(0, 0, 4));
    p.integrate(ONE);
    assert_eq!(p.get_velocity(), v(0, 0, 2));
    assert_eq!(p.get_position(), Vector3::zero());
    assert_eq!(p.get_force_accum(), Vector3::zero());
}

#[test]
fn fractional_step_damps_by_power() {
    let mut p = Particle::new();
    p.set_mass(ONE);
    p.set_velocity(ONE, 0, 0);
    p.set_damping(ONE / 4);
    p.integrate(ONE / 2);
    assert_eq!(p.get_velocity(), Vector3::new(ONE / 2, 0, 0));
    assert_eq!(p.get_position(), Vector3::new(ONE / 2, 0, 0));
}
