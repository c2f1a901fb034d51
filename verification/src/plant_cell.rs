//! One grid cell owned by a plant.

use vstd::prelude::*;
use crate::cell_types::CellType;
use crate::config::RESPONSE_SIZE;
use crate::position::{has_neighbours, Pos};
use crate::ratio::UNIT;

verus! {

/// A cell of a plant: where it stands, what it is, and which response
/// cluster it consults when it acts as a growth parent.
#[derive(Clone, Copy, Debug, PartialEq, Eq, Structural)]
pub struct PlantCell {
    pub pos: Pos,
    pub cell_type: CellType,
    pub response_ix: usize,
}

/// What a plant may own: a leaf or a trunk with a valid fraction, whose
/// cluster index is within the table and whose neighbours can be named.
pub open spec fn ownable(cell: PlantCell) -> bool {
    &&& has_neighbours(cell.pos)
    &&& cell.response_ix < RESPONSE_SIZE
    &&& cell.cell_type.wf()
    &&& (cell.cell_type is Leaf || cell.cell_type is Trunk)
}

impl PlantCell {
    /// Builds a cell from its parts.
    pub fn new(pos: Pos, cell_type: CellType, response_ix: usize) -> (cell: PlantCell)
        ensures
            cell == (PlantCell { pos, cell_type, response_ix }),
    {
        PlantCell { pos, cell_type, response_ix }
    }

    /// The root of a plant: a fully connected trunk that consults the first
    /// cluster.
    pub open spec fn root_spec(pos: Pos) -> PlantCell {
        PlantCell { pos, cell_type: CellType::Trunk { root_connection: UNIT }, response_ix: 0 }
    }

    /// Builds the root cell of a plant at `pos`.
    pub fn new_root(pos: Pos) -> (cell: PlantCell)
        ensures
            cell == PlantCell::root_spec(pos),
    {
        PlantCell { pos, cell_type: CellType::new_root(), response_ix: 0 }
    }

    /// Runtime form of [`ownable`].
    pub fn is_ownable(&self) -> (valid: bool)
        ensures
            valid == ownable(*self),
    {
        let kind: bool = match self.cell_type {
            CellType::Leaf { .. } | CellType::Trunk { .. } => true,
            _ => false,
        };
        i32::MIN < self.pos.x && self.pos.x < i32::MAX && i32::MIN < self.pos.y && self.pos.y
            < i32::MAX && self.response_ix < RESPONSE_SIZE && self.cell_type.is_valid() && kind
    }

    /// Where the cell stands.
    pub fn get_pos(&self) -> (pos: Pos)
        ensures
            pos == self.pos,
    {
        self.pos
    }

    /// What the cell is.
    pub fn get_cell_type(&self) -> (cell_type: CellType)
        ensures
            cell_type == self.cell_type,
    {
        self.cell_type
    }

    /// The index of the cluster the cell consults.
    pub fn get_response_ix(&self) -> (index: usize)
        ensures
            index == self.response_ix,
    {
        self.response_ix
    }
}

} // verus!
