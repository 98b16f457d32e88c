//! The building blocks of the simulation: random draws, cars, intersections
//! and the road graph.

pub mod random;
pub mod intersection;
pub mod car;
pub mod road;
