//! A swarm of particles that floats freely or gathers onto a set of target
//! points, each particle on a target of its own.
//!
//! Every quantity is a fixed-point number: a whole number of thousandths of a
//! world unit, of a unit of time, or of one.
//!
//! - `geometry`: positions, grid cells, squared distances.
//! - `grid`: the index of the targets by grid cell.
//! - `nearest`: the search for the nearest unused target around a particle.
//! - `assign`: the two passes that give targets to particles.
//! - `laws`: what holds of every assignment.
//! - `population`: particles, their kinds, and how new ones are drawn.
//! - `motion`: one step of one particle, and what holds of every step.
//! - `substrate`: the swarm as a whole.
//! - `report`: the diagnostic summary as text.
pub mod assign;
pub mod geometry;
pub mod grid;
pub mod laws;
pub mod motion;
pub mod nearest;
pub mod population;
pub mod report;
pub mod substrate;

pub use crate::population::ParticleType;
pub use crate::substrate::SwarmSubstrate;
