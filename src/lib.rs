//! Ants wandering a directed map of colonies: the tunnels of each colony, the
//! tick engine that moves ants, resolves fights and destroys colonies, and the
//! run loop with its two ceilings.

pub mod colony;
pub mod laws;
pub mod parser;
pub mod random;
pub mod simulation;
pub mod text;
