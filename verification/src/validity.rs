//! Runtime checks of what the world demands of its state, for callers that
//! build or change a world by hand.

use vstd::prelude::*;
use crate::habitat::{airborne, grid_wf, grounded, living, Habitat};
use crate::plant::Plant;
use crate::position::{wrap, Pos};

verus! {

impl Habitat {
    /// Whether the grid has its dimensions and holds valid cells only.
    pub fn grid_is_valid(&self) -> (valid: bool)
        ensures
            valid == grid_wf(self.cell_map@, self.width(), self.height()),
    {
        if !(0 < self.grid_size.x && 0 < self.grid_size.y && self.cell_map.len()
            == self.grid_size.x as usize) {
            return false;
        }
        let height: usize = self.grid_size.y as usize;
        let mut c: usize = 0;
        while c < self.cell_map.len()
            invariant
                height == self.height(),
                0 < self.width() == self.cell_map@.len(),
                c <= self.cell_map@.len(),
                forall|k: int| 0 <= k < c ==> (#[trigger] self.cell_map@[k])@.len() == height,
                forall|k: int, r: int|
                    0 <= k < c && 0 <= r < height ==> (#[trigger] self.cell_map@[k]@[r]).wf(),
            decreases self.cell_map@.len() - c,
        {
            let column: &Vec<crate::cell_types::CellType> = &self.cell_map[c];
            if column.len() != height {
                return false;
            }
            let mut r: usize = 0;
            while r < column.len()
                invariant
                    *column == self.cell_map@[c as int],
                    c < self.cell_map@.len(),
                    column@.len() == height,
                    r <= height,
                    forall|k: int| 0 <= k < r ==> (#[trigger] column@[k]).wf(),
                decreases height - r,
            {
                if !column[r].is_valid() {
                    assert(!self.cell_map@[c as int]@[r as int].wf());
                    return false;
                }
                r += 1;
            }
            c += 1;
        }
        true
    }

    /// Whether a plant may stand among the living of this world.
    pub fn is_living(&self, plant: &Plant) -> (valid: bool)
        ensures
            valid == living(*plant, self.width(), self.height()),
    {
        plant.is_valid() && plant.has_root && plant.cells_in_grid(self.grid_size)
    }

    /// Whether a plant may be among the seeds in the air of this world.
    pub fn is_airborne(&self, plant: &Plant) -> (valid: bool)
        ensures
            valid == airborne(*plant, self.width(), self.height()),
    {
        plant.is_valid() && !plant.has_root && plant.cells.len() == 0 && plant.lifetime == 0
            && self.is_in_grid(plant.pos)
    }

    /// Whether a plant may wait in the ground of the given column.
    pub fn is_grounded(plant: &Plant, column: usize) -> (valid: bool)
        ensures
            valid == grounded(*plant, column as int),
    {
        plant.is_valid() && !plant.has_root && plant.cells.len() == 0 && plant.lifetime == 0
            && plant.pos.x >= 0 && plant.pos.x as usize == column && plant.pos.y == 0
    }

    /// Whether the selection is unresolved or points at a cell of a living
    /// plant on the selected position.
    pub fn selection_is_resolved(&self) -> (valid: bool)
        requires
            0 < self.width(),
        ensures
            valid == self.selection_resolved(),
    {
        match (self.selected_pos, self.selected_plant_ix, self.selected_cell_ix) {
            (Some(pos), Some(plant_ix), Some(cell_ix)) => {
                if plant_ix < self.plants.len() && cell_ix < self.plants[plant_ix].cells.len() {
                    let at: Pos = self.plants[plant_ix].cells[cell_ix].get_pos();
                    at.x == wrap(pos.x, self.grid_size.x) && at.y == pos.y
                } else {
                    false
                }
            },
            (_, None, None) => true,
            _ => false,
        }
    }

    /// Whether the state is one that the world can advance from: the
    /// runtime form of [`Habitat::wf`].
    pub fn is_valid(&self) -> (valid: bool)
        ensures
            valid == self.wf(),
    {
        if !(self.config.is_valid() && self.grid_is_valid() && self.ground_buffer.len()
            == self.grid_size.x as usize) {
            return false;
        }
        let mut i: usize = 0;
        while i < self.plants.len()
            invariant
                i <= self.plants@.len(),
                forall|k: int|
                    0 <= k < i ==> living(#[trigger] self.plants@[k], self.width(), self.height()),
            decreases self.plants@.len() - i,
        {
            if !self.is_living(&self.plants[i]) {
                return false;
            }
            i += 1;
        }
        let mut i: usize = 0;
        while i < self.seeds.len()
            invariant
                i <= self.seeds@.len(),
                forall|k: int|
                    0 <= k < i ==> airborne(#[trigger] self.seeds@[k], self.width(), self.height()),
            decreases self.seeds@.len() - i,
        {
            if !self.is_airborne(&self.seeds[i]) {
                return false;
            }
            i += 1;
        }
        let mut c: usize = 0;
        while c < self.ground_buffer.len()
            invariant
                self.ground_buffer@.len() == self.width(),
                c <= self.ground_buffer@.len(),
                forall|a: int, k: int|
                    0 <= a < c && 0 <= k < self.ground_buffer@[a]@.len() ==> grounded(
                        #[trigger] self.ground_buffer@[a]@[k],
                        a,
                    ),
            decreases self.ground_buffer@.len() - c,
        {
            let buffer: &Vec<Plant> = &self.ground_buffer[c];
            let mut k: usize = 0;
            while k < buffer.len()
                invariant
                    *buffer == self.ground_buffer@[c as int],
                    c < self.ground_buffer@.len() == self.width(),
                    k <= buffer@.len(),
                    forall|m: int| 0 <= m < k ==> grounded(#[trigger] buffer@[m], c as int),
                decreases buffer@.len() - k,
            {
                if !Habitat::is_grounded(&buffer[k], c) {
                    assert(!grounded(self.ground_buffer@[c as int]@[k as int], c as int));
                    return false;
                }
                k += 1;
            }
            c += 1;
        }
        let mut i: usize = 0;
        while i < self.dead_cells.len()
            invariant
                i <= self.dead_cells@.len(),
                forall|k: int|
                    0 <= k < i ==> (#[trigger] self.dead_cells@[k]).in_grid(
                        self.width(),
                        self.height(),
                    ),
            decreases self.dead_cells@.len() - i,
        {
            if !self.is_in_grid(self.dead_cells[i]) {
                return false;
            }
            i += 1;
        }
        if let Some(pos) = self.selected_pos {
            if !self.is_in_y_bounds(pos) {
                return false;
            }
        }
        self.selection_is_resolved()
    }
}

} // verus!
