//! A pheromone-guided randomized solver for the capacitated warehouse
//! location problem: decide which warehouses to open and which open
//! warehouse serves each customer, minimizing opening plus service cost,
//! under per-warehouse capacity limits and a minimum count of open
//! warehouses.
//!
//! Costs are carried as integer cost units and trail strengths as
//! fixed-point values, so every quantity the solver reasons about is a
//! plain integer.

pub mod model;
pub mod eval;
pub mod numeric;
pub mod pheromone;
pub mod sampling;
pub mod construct;
pub mod colony;
