//! An artificial-life engine: a bounded two-dimensional grid of tiles
//! populated by creatures whose behavior is driven by small, randomly
//! generated neural decision networks. The world advances in discrete
//! ticks; each tick, every creature with a brain senses its surroundings
//! and decides one action, and the world applies all actions in a single
//! sequential pass, spawns new creatures, and regenerates food.

pub mod caps;
pub mod neural_network;
pub mod rng;
pub mod simulation;
