//! A discrete-time traffic simulation: a road graph of signal-controlled
//! intersections, cars with turn intents, and a simulator that advances
//! lights and cars tick by tick.

pub mod error;
pub mod traffic_logic;
pub mod simulator;
