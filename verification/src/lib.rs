//! Monte Carlo simulation engine for classical atomistic spin models on
//! three-dimensional crystal lattices.
//!
//! The crate models all physical quantities (temperatures, fields, energies,
//! spin projections) as fixed-point numbers so that every piece of the
//! simulation kernel — lattices, Hamiltonians, integrators, instruments,
//! machines and programs — carries a verified contract.

pub mod accumulator;
pub mod energy;
pub mod error;
pub mod exp;
pub mod fixed;
pub mod geometry;
pub mod input;
pub mod instrument;
pub mod integrator;
pub mod lattice;
pub mod machine;
pub mod program;
pub mod rng;
pub mod sites;
pub mod state;
pub mod thermostat;
pub mod util;
