//! A square grid of particles advanced in place, one independent step per
//! particle, and the choice of the seed that drives a run.

mod grid;
mod seed;

pub use grid::{
    cell_index, deterministic, lemma_cell_index_bounds, lemma_step_deterministic, stepped, FlowGrid,
};
pub use seed::{noise_seed, resolve_seed, resolved_seed};
