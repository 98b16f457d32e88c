//! The two ways in which the simulation reports trouble.

use vstd::prelude::*;

verus! {

/// A mistake in setting up the network, found before the simulation runs.
#[derive(Clone, Copy, PartialEq, Eq, Debug, Structural)]
pub enum ConfigError {
    /// An intersection that was named does not exist.
    UnknownIntersection,
    /// A direction is not one of 0, 1, 2, 3.
    InvalidDirection,
    /// A road must take at least one tick to travel.
    ZeroDistance,
    /// An end of the road already has a road in that direction.
    SlotOccupied,
    /// Intersection ids are bytes counted from 1: there is room for 255.
    TooManyIntersections,
    /// Car ids are bytes: there is room for 255 cars.
    TooManyCars,
    /// A new car must stand at an intersection, and nowhere else.
    InvalidPosition,
}

/// A condition under which the simulation cannot go on.
#[derive(Clone, Copy, PartialEq, Eq, Debug, Structural)]
pub enum Fault {
    /// A car has been let go at an intersection that no road leaves.
    NoOutboundEdge { car: u8, intersection: u8 },
    /// The tick counter has reached the largest number it can hold.
    ClockExhausted,
}

} // verus!
