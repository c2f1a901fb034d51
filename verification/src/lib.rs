//! Evolving grid plants: a genetic growth interpreter and a cellular world,
//! with every quantity held in exact integer arithmetic.
//!
//! Fractions are whole numbers of millionths or exact ratios; energy is a
//! signed number of millionths. The world advances in discrete ticks, and
//! every phase of a tick is a function with a proved contract.

use vstd::prelude::*;

pub mod cell_types;
pub mod chance;
pub mod config;
pub mod energy;
pub mod genome;
pub mod growth;
pub mod habitat;
pub mod lifecycle;
pub mod light;
pub mod parallel;
pub mod plant;
pub mod plant_cell;
pub mod position;
pub mod ratio;
pub mod response;
pub mod response_cluster;
pub mod seeds;
pub mod tick;
pub mod validity;

pub use crate::cell_types::{CellType, ColorConvert};
pub use crate::habitat::Habitat;

verus! {

/// Creates an empty world of the given width and height with the standard
/// parameters.
pub fn create_habitat(grid_size: (i32, i32)) -> (habitat: Habitat)
    requires
        0 < grid_size.0,
        0 < grid_size.1,
    ensures
        habitat.wf(),
        habitat.grid_size == (crate::position::Pos { x: grid_size.0, y: grid_size.1 }),
        habitat.config == crate::config::Config::standard_spec(),
        habitat.is_empty_world(),
{
    Habitat::new(crate::position::Pos { x: grid_size.0, y: grid_size.1 })
}

} // verus!
