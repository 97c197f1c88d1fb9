//! A particle physics kernel on fixed-point numbers: vectors, point masses
//! integrated over time, force generators, and a registry that applies the
//! generators to the particles once per step.
pub mod fixed;
pub mod vector3;
pub mod particle;
pub mod elementary;
pub mod forces;
pub mod registry;

pub use fixed::ONE;
pub use forces::{
    ParticleAnchoredSpring, ParticleBungee, ParticleBuoyancy, ParticleDrag, ParticleFakeSpring,
    ParticleGravity, ParticleSpring,
};
pub use particle::Particle;
pub use registry::{ParticleForceGenerator, ParticleForceRegistry};
pub use vector3::Vector3;
