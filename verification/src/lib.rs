//! Evolves populations of block-grid vehicles with a generational genetic
//! algorithm: tournament selection, crossover of neighbouring parents,
//! mutation, and a cache of every fitness that was ever measured, filed
//! under the content of the vehicle.
//!
//! The library never scores a vehicle itself. A driver hands the vehicles of
//! the ledger out to an evaluator, reports the results back, and calls the
//! engine at the end of each round.
//!
//! - [`block`]: the kinds of cell.
//! - [`vehicle`]: the genome, a grid of blocks, with its crossovers and its mutation.
//! - [`genome_key`]: the content address of a genome.
//! - [`vehicle_states`]: the ledger of one round, a slot for each vehicle.
//! - [`fitness_cache`]: the fitness on file for each genome.
//! - [`genetics_simulator`]: the engine, with its population and its log.
//! - [`genetics`]: the settings and the steps of the driver at a round's end.
//! - [`grid`], [`chance`], [`ramp`], [`text`]: the calls into `ndarray`, `rand`,
//!   `colorous` and the text functions of `std`, each with what is taken on
//!   trust of it.

pub mod block;
pub mod chance;
pub mod fitness_cache;
pub mod genetics;
pub mod genetics_simulator;
pub mod genome_key;
pub mod grid;
pub mod ramp;
pub mod text;
pub mod vehicle;
pub mod vehicle_states;
