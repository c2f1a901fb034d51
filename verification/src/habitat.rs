//! The world: a grid that wraps around horizontally, the plants that live
//! in it, the seeds in the air and in the ground, and the remains of the
//! dead.

use vstd::prelude::*;
use crate::cell_types::{CellType, ColorConvert, Rgb};
use crate::config::Config;
use crate::chance::random_range;
use crate::light::{lemma_light_bounded, light_at, lit, lit_cell};
use crate::parallel::step_all;
use crate::plant::Plant;
use crate::position::{wrap, wrap_spec, Pos};

verus! {

/// The authoritative state of the world.
#[derive(Debug)]
pub struct Habitat {
    /// Width and height of the grid.
    pub grid_size: Pos,
    /// The grid by columns; within a column the canopy row comes first and
    /// the ground row last.
    pub cell_map: Vec<Vec<CellType>>,
    /// The rooted plants.
    pub plants: Vec<Plant>,
    /// The seeds in the air.
    pub seeds: Vec<Plant>,
    /// The positions of cells left behind by dead plants.
    pub dead_cells: Vec<Pos>,
    /// The seeds that have landed, by column, waiting to germinate.
    pub ground_buffer: Vec<Vec<Plant>>,
    /// The population below which a new seed is dropped in every tick.
    pub minimum_plants: usize,
    /// The position picked for inspection, if any.
    pub selected_pos: Option<Pos>,
    /// The plant that stands on the picked position.
    pub selected_plant_ix: Option<usize>,
    /// The cell of that plant on the picked position.
    pub selected_cell_ix: Option<usize>,
    /// The parameters of this world.
    pub config: Config,
}

/// A grid of `width` columns and `height` rows of valid cells.
pub open spec fn grid_wf(cell_map: Seq<Vec<CellType>>, width: int, height: int) -> bool {
    &&& 0 < width
    &&& 0 < height
    &&& cell_map.len() == width
    &&& forall|c: int| 0 <= c < width ==> (#[trigger] cell_map[c])@.len() == height
    &&& forall|c: int, r: int|
        0 <= c < width && 0 <= r < height ==> (#[trigger] cell_map[c]@[r]).wf()
}

/// The cell that a grid holds at a position whose row is inside the grid;
/// the column wraps.
pub open spec fn cell_in(cell_map: Seq<Vec<CellType>>, width: int, height: int, pos: Pos)
    -> CellType {
    cell_map[wrap_spec(pos.x as int, width)]@[height - 1 - pos.y]
}

/// A rooted plant whose cells all lie inside the grid.
pub open spec fn living(plant: Plant, width: int, height: int) -> bool {
    &&& plant.wf()
    &&& plant.has_root
    &&& forall|j: int|
        0 <= j < plant.cells@.len() ==> (#[trigger] plant.cells@[j]).pos.in_grid(width, height)
}

/// A seed in flight inside the grid.
pub open spec fn airborne(plant: Plant, width: int, height: int) -> bool {
    &&& plant.wf()
    &&& !plant.has_root
    &&& plant.cells@.len() == 0
    &&& plant.lifetime == 0
    &&& plant.pos.in_grid(width, height)
}

/// A seed that lies on the ground of the given column.
pub open spec fn grounded(plant: Plant, column: int) -> bool {
    &&& plant.wf()
    &&& !plant.has_root
    &&& plant.cells@.len() == 0
    &&& plant.lifetime == 0
    &&& plant.pos.x == column
    &&& plant.pos.y == 0
}

/// Whether a plant among `plants` owns exactly this cell content at `pos`.
pub open spec fn owns(plants: Seq<Plant>, pos: Pos, cell: CellType) -> bool {
    exists|i: int, j: int|
        0 <= i < plants.len() && 0 <= j < plants[i].cells@.len() && (
        #[trigger] plants[i].cells@[j]).pos == pos && plants[i].cells@[j].cell_type == cell
}

/// Whether a plant among `plants` owns a leaf at `pos`.
pub open spec fn leaf_claimed(plants: Seq<Plant>, pos: Pos) -> bool {
    exists|i: int, j: int|
        0 <= i < plants.len() && 0 <= j < plants[i].cells@.len() && (
        #[trigger] plants[i].cells@[j]).pos == pos && plants[i].cells@[j].cell_type is Leaf
}

/// Whether a plant among `plants` owns a trunk at `pos`.
pub open spec fn trunk_claimed(plants: Seq<Plant>, pos: Pos) -> bool {
    exists|i: int, j: int|
        0 <= i < plants.len() && 0 <= j < plants[i].cells@.len() && (
        #[trigger] plants[i].cells@[j]).pos == pos && plants[i].cells@[j].cell_type is Trunk
}

/// Whether `pos` is recorded among the remains.
pub open spec fn dead_at(dead_cells: Seq<Pos>, pos: Pos) -> bool {
    exists|k: int| 0 <= k < dead_cells.len() && #[trigger] dead_cells[k] == pos
}

/// What a freshly rebuilt grid shows at `pos`: a leaf of a living plant if
/// any living plant has a leaf there; else a trunk of a living plant if any
/// has a trunk there; else the remains of the dead if any are recorded
/// there; else nothing. One coordinate shows one cell, and a living claim
/// always hides the dead.
pub open spec fn shows(plants: Seq<Plant>, dead_cells: Seq<Pos>, pos: Pos, cell: CellType)
    -> bool {
    if leaf_claimed(plants, pos) {
        cell is Leaf && owns(plants, pos, cell)
    } else if trunk_claimed(plants, pos) {
        cell is Trunk && owns(plants, pos, cell)
    } else if dead_at(dead_cells, pos) {
        cell == CellType::Dead
    } else {
        cell == CellType::Empty
    }
}

/// Whether the list holds this content for `pos`.
pub open spec fn listed(list: Seq<(Pos, CellType)>, pos: Pos, cell: CellType) -> bool {
    exists|k: int| 0 <= k < list.len() && #[trigger] list[k] == (pos, cell)
}

/// Whether the list holds any content for `pos`.
pub open spec fn listed_at(list: Seq<(Pos, CellType)>, pos: Pos) -> bool {
    exists|k: int| 0 <= k < list.len() && (#[trigger] list[k]).0 == pos
}

/// The grid is rebuilt: nothing but the grid changes, and every cell shows
/// what the living plants and the recorded remains claim for it.
pub open spec fn rebuilt(pre: Habitat, post: Habitat) -> bool {
    &&& post == (Habitat { cell_map: post.cell_map, ..pre })
    &&& forall|pos: Pos|
        pos.in_grid(pre.width(), pre.height()) ==> shows(
            pre.plants@,
            pre.dead_cells@,
            pos,
            #[trigger] post.cell_at(pos),
        )
}

/// The sun has shone: nothing but the grid changes, and every column is
/// what the sunlight pass makes of it.
pub open spec fn sunlit(pre: Habitat, post: Habitat) -> bool {
    &&& post == (Habitat { cell_map: post.cell_map, ..pre })
    &&& forall|c: int|
        0 <= c < pre.width() ==> (#[trigger] post.cell_map@[c])@ == lit(
            pre.cell_map@[c]@,
            pre.config,
        )
}

/// The selection is resolved against the grid and the living plants:
/// it points at the last plant that owns a cell on the selected position
/// and at the first such cell of that plant, if the position shows a
/// leaf or a trunk, and is cleared otherwise.
pub open spec fn selection_refreshed(pre: Habitat, post: Habitat) -> bool {
    &&& post == (Habitat {
        selected_pos: post.selected_pos,
        selected_plant_ix: post.selected_plant_ix,
        selected_cell_ix: post.selected_cell_ix,
        ..pre
    })
    &&& post.selection_resolved()
    &&& match (post.selected_pos, post.selected_plant_ix, post.selected_cell_ix) {
        (Some(pos), Some(plant_ix), Some(cell_ix)) => {
            let target = pre.selection_target(pos);
            &&& pre.selected_pos == Some(pos)
            &&& (pre.cell_at(pos) is Leaf || pre.cell_at(pos) is Trunk)
            &&& forall|i: int, j: int|
                plant_ix < i < pre.plants@.len() && 0 <= j < pre.plants@[i].cells@.len() ==> (
                #[trigger] pre.plants@[i].cells@[j]).pos != target
            &&& forall|j: int|
                0 <= j < cell_ix ==> (#[trigger] pre.plants@[plant_ix as int].cells@[j]).pos
                    != target
        },
        (None, None, None) => pre.selected_pos matches Some(pos) ==> {
            let target = pre.selection_target(pos);
            ||| !(pre.cell_at(pos) is Leaf || pre.cell_at(pos) is Trunk)
            ||| forall|i: int, j: int|
                0 <= i < pre.plants@.len() && 0 <= j < pre.plants@[i].cells@.len() ==> (
                #[trigger] pre.plants@[i].cells@[j]).pos != target
        },
        _ => false,
    }
}

/// Every rooted plant is one tick older, and nothing else has changed.
pub open spec fn aged(pre: Habitat, post: Habitat) -> bool {
    &&& post == (Habitat { plants: post.plants, ..pre })
    &&& post.plants@.len() == pre.plants@.len()
    &&& forall|i: int|
        0 <= i < pre.plants@.len() ==> #[trigger] post.plants@[i] == pre.plants@[i].aged()
}

impl Habitat {
    /// The number of columns.
    pub open spec fn width(&self) -> int {
        self.grid_size.x as int
    }

    /// The number of rows.
    pub open spec fn height(&self) -> int {
        self.grid_size.y as int
    }

    /// The cell at a position whose row is inside the grid.
    pub open spec fn cell_at(&self, pos: Pos) -> CellType {
        cell_in(self.cell_map@, self.width(), self.height(), pos)
    }

    /// What holds of the world at every moment of a tick: the grid has its
    /// dimensions, every rooted plant is among the living and nowhere else,
    /// every seed is in the air or in the buffer of its column, and every
    /// recorded position lies inside the grid.
    pub open spec fn inv(&self) -> bool {
        &&& self.config.wf()
        &&& grid_wf(self.cell_map@, self.width(), self.height())
        &&& self.ground_buffer@.len() == self.width()
        &&& forall|i: int|
            0 <= i < self.plants@.len() ==> living(
                #[trigger] self.plants@[i],
                self.width(),
                self.height(),
            )
        &&& forall|i: int|
            0 <= i < self.seeds@.len() ==> airborne(
                #[trigger] self.seeds@[i],
                self.width(),
                self.height(),
            )
        &&& forall|c: int, i: int|
            0 <= c < self.width() && 0 <= i < self.ground_buffer@[c]@.len() ==> grounded(
                #[trigger] self.ground_buffer@[c]@[i],
                c,
            )
        &&& forall|i: int|
            0 <= i < self.dead_cells@.len() ==> (#[trigger] self.dead_cells@[i]).in_grid(
                self.width(),
                self.height(),
            )
        &&& (self.selected_pos matches Some(pos) ==> pos.in_rows(self.height()))
    }

    /// Whether the selection is consistent: either only a position is
    /// selected, or nothing is, or the selection names a plant and a cell of
    /// that plant which stands on the selected position.
    pub open spec fn selection_resolved(&self) -> bool {
        match (self.selected_pos, self.selected_plant_ix, self.selected_cell_ix) {
            (Some(pos), Some(plant_ix), Some(cell_ix)) => {
                &&& plant_ix < self.plants@.len()
                &&& cell_ix < self.plants@[plant_ix as int].cells@.len()
                &&& self.plants@[plant_ix as int].cells@[cell_ix as int].pos == (Pos {
                    x: wrap_spec(pos.x as int, self.width()) as i32,
                    y: pos.y,
                })
            },
            (_, None, None) => true,
            _ => false,
        }
    }

    /// What holds of the world between ticks: the invariant of the tick,
    /// and a selection that is either unresolved or points at a cell of a
    /// living plant on the selected position.
    pub open spec fn wf(&self) -> bool {
        self.inv() && self.selection_resolved()
    }

    /// An empty world of the given size with the standard parameters. The
    /// width wraps around; the height does not.
    pub fn new(grid_size: Pos) -> (habitat: Habitat)
        requires
            0 < grid_size.x,
            0 < grid_size.y,
        ensures
            habitat.wf(),
            habitat.grid_size == grid_size,
            habitat.config == Config::standard_spec(),
            habitat.is_empty_world(),
    {
        Habitat::with_config(grid_size, Config::standard())
    }

    /// True of a world without plants, seeds, remains, population floor or
    /// selection, whose every cell is empty.
    pub open spec fn is_empty_world(&self) -> bool {
        &&& self.plants@.len() == 0
        &&& self.seeds@.len() == 0
        &&& self.dead_cells@.len() == 0
        &&& forall|c: int|
            0 <= c < self.ground_buffer@.len() ==> (#[trigger] self.ground_buffer@[c])@.len() == 0
        &&& self.minimum_plants == 0
        &&& self.selected_pos is None
        &&& self.selected_plant_ix is None
        &&& self.selected_cell_ix is None
        &&& forall|c: int, r: int|
            0 <= c < self.width() && 0 <= r < self.height() ==> (
            #[trigger] self.cell_map@[c]@[r]) == CellType::Empty
    }

    /// An empty world of the given size with the given parameters.
    pub fn with_config(grid_size: Pos, config: Config) -> (habitat: Habitat)
        requires
            0 < grid_size.x,
            0 < grid_size.y,
            config.wf(),
        ensures
            habitat.wf(),
            habitat.grid_size == grid_size,
            habitat.config == config,
            habitat.is_empty_world(),
    {
        let cell_map: Vec<Vec<CellType>> = Habitat::empty_grid(grid_size);
        let mut ground_buffer: Vec<Vec<Plant>> = Vec::new();
        let mut c: i32 = 0;
        while c < grid_size.x
            invariant
                0 <= c <= grid_size.x,
                ground_buffer@.len() == c,
                forall|k: int| 0 <= k < c ==> (#[trigger] ground_buffer@[k])@.len() == 0,
            decreases grid_size.x - c,
        {
            ground_buffer.push(Vec::new());
            c += 1;
        }
        Habitat {
            grid_size,
            cell_map,
            plants: Vec::new(),
            seeds: Vec::new(),
            dead_cells: Vec::new(),
            ground_buffer,
            minimum_plants: 0,
            selected_pos: None,
            selected_plant_ix: None,
            selected_cell_ix: None,
            config,
        }
    }

    /// A grid of the given size whose every cell is empty.
    pub fn empty_grid(grid_size: Pos) -> (cell_map: Vec<Vec<CellType>>)
        requires
            0 < grid_size.x,
            0 < grid_size.y,
        ensures
            grid_wf(cell_map@, grid_size.x as int, grid_size.y as int),
            forall|c: int, r: int|
                0 <= c < grid_size.x && 0 <= r < grid_size.y ==> (#[trigger] cell_map@[c]@[r])
                    == CellType::Empty,
    {
        let mut cell_map: Vec<Vec<CellType>> = Vec::new();
        let mut c: i32 = 0;
        while c < grid_size.x
            invariant
                0 <= c <= grid_size.x,
                0 < grid_size.y,
                cell_map@.len() == c,
                forall|k: int| 0 <= k < c ==> (#[trigger] cell_map@[k])@.len() == grid_size.y,
                forall|k: int, r: int|
                    0 <= k < c && 0 <= r < grid_size.y ==> (#[trigger] cell_map@[k]@[r])
                        == CellType::Empty,
            decreases grid_size.x - c,
        {
            let mut column: Vec<CellType> = Vec::new();
            let mut r: i32 = 0;
            while r < grid_size.y
                invariant
                    0 <= r <= grid_size.y,
                    column@.len() == r,
                    forall|k: int| 0 <= k < r ==> (#[trigger] column@[k]) == CellType::Empty,
                decreases grid_size.y - r,
            {
                column.push(CellType::Empty);
                r += 1;
            }
            cell_map.push(column);
            c += 1;
        }
        cell_map
    }

    /// Whether `pos` names a cell without wrapping.
    pub fn is_in_grid(&self, pos: Pos) -> (inside: bool)
        ensures
            inside == pos.in_grid(self.width(), self.height()),
    {
        !(pos.x < 0 || pos.x >= self.grid_size.x || pos.y < 0 || pos.y >= self.grid_size.y)
    }

    /// Whether the row of `pos` lies between the ground and the canopy.
    pub fn is_in_y_bounds(&self, pos: Pos) -> (inside: bool)
        ensures
            inside == pos.in_rows(self.height()),
    {
        !(pos.y < 0 || pos.y >= self.grid_size.y)
    }

    /// Reads the cell at `pos`; the column wraps around.
    pub fn get_cell_at(&self, pos: Pos) -> (cell: &CellType)
        requires
            grid_wf(self.cell_map@, self.width(), self.height()),
            pos.in_rows(self.height()),
        ensures
            *cell == self.cell_at(pos),
            cell.wf(),
    {
        let column: usize = wrap(pos.x, self.grid_size.x) as usize;
        let row: usize = (self.grid_size.y - 1 - pos.y) as usize;
        &self.cell_map[column][row]
    }

    /// Writes the cell at `pos`; the column wraps around.
    pub fn set_cell(&mut self, pos: Pos, cell_type: CellType)
        requires
            grid_wf(old(self).cell_map@, old(self).width(), old(self).height()),
            pos.in_rows(old(self).height()),
            cell_type.wf(),
        ensures
            grid_wf(final(self).cell_map@, final(self).width(), final(self).height()),
            final(self).cell_at(pos) == cell_type,
            forall|c: int, r: int|
                0 <= c < old(self).width() && 0 <= r < old(self).height() && !(c == wrap_spec(
                    pos.x as int,
                    old(self).width(),
                ) && r == old(self).height() - 1 - pos.y)
                    ==> #[trigger] final(self).cell_map@[c]@[r] == old(self).cell_map@[c]@[r],
            forall|other: Pos|
                other.in_grid(old(self).width(), old(self).height()) && !(other.x == wrap_spec(
                    pos.x as int,
                    old(self).width(),
                ) && other.y == pos.y) ==> #[trigger] final(self).cell_at(other)
                    == old(self).cell_at(other),
            *final(self) == (Habitat { cell_map: final(self).cell_map, ..*old(self) }),
    {
        let column: usize = wrap(pos.x, self.grid_size.x) as usize;
        let row: usize = (self.grid_size.y - 1 - pos.y) as usize;
        self.cell_map[column][row] = cell_type;
        proof {
            assert forall|other: Pos|
                other.in_grid(old(self).width(), old(self).height()) && !(other.x == wrap_spec(
                    pos.x as int,
                    old(self).width(),
                ) && other.y == pos.y) implies #[trigger] self.cell_at(other)
                == old(self).cell_at(other) by {
                vstd::arithmetic::div_mod::lemma_small_mod(
                    other.x as nat,
                    old(self).width() as nat,
                );
            }
        }
    }

    /// Places a fresh leaf on the first empty cell among up to a hundred
    /// tried by chance: for certain where all are empty, never where none is.
    pub fn spawn_random_cell(&mut self)
        requires
            old(self).inv(),
        ensures
            final(self).inv(),
            *final(self) == *old(self) || exists|place: Pos|
                #[trigger] leaf_placed(*old(self), *final(self), place),
            every_cell_empty(*old(self)) ==> exists|place: Pos|
                #[trigger] leaf_placed(*old(self), *final(self), place),
            no_cell_empty(*old(self)) ==> *final(self) == *old(self),
    {
        let mut tries: usize = 0;
        while tries < 100
            invariant
                tries <= 100,
                *self == *old(self),
                self.inv(),
                tries > 0 ==> exists|tried: Pos|
                    tried.in_grid(self.width(), self.height()) && !(#[trigger] self.cell_at(
                        tried,
                    ) is Empty),
            decreases 100 - tries,
        {
            let pos: Pos = Pos {
                x: random_range(0, self.grid_size.x),
                y: random_range(0, self.grid_size.y),
            };
            if self.place_leaf(pos) {
                return;
            }
            assert(!(self.cell_at(pos) is Empty));
            tries += 1;
        }
    }

    /// Places a fresh leaf on the cell at `pos` if that cell is empty, and
    /// tells whether it did; a cell that is taken stays as it is.
    pub fn place_leaf(&mut self, pos: Pos) -> (placed: bool)
        requires
            old(self).inv(),
            pos.in_grid(old(self).width(), old(self).height()),
        ensures
            final(self).inv(),
            placed == old(self).cell_at(pos) is Empty,
            placed ==> leaf_placed(*old(self), *final(self), pos),
            !placed ==> *final(self) == *old(self),
    {
        let empty: bool = match self.get_cell_at(pos) {
            CellType::Empty => true,
            _ => false,
        };
        if empty {
            self.set_cell(pos, CellType::new_leaf());
            proof {
                vstd::arithmetic::div_mod::lemma_small_mod(pos.x as nat, self.width() as nat);
            }
        }
        empty
    }

    /// Lists the leaves and the trunks of all living plants, each with its
    /// position, plant by plant in the order the cells were grown.
    pub fn collect_cells(&self) -> (lists: (Vec<(Pos, CellType)>, Vec<(Pos, CellType)>))
        requires
            self.inv(),
        ensures
            forall|k: int|
                0 <= k < lists.0@.len() ==> {
                    let entry = #[trigger] lists.0@[k];
                    entry.1 is Leaf && entry.1.wf() && entry.0.in_grid(self.width(), self.height())
                        && owns(self.plants@, entry.0, entry.1)
                },
            forall|k: int|
                0 <= k < lists.1@.len() ==> {
                    let entry = #[trigger] lists.1@[k];
                    entry.1 is Trunk && entry.1.wf() && entry.0.in_grid(
                        self.width(),
                        self.height(),
                    ) && owns(self.plants@, entry.0, entry.1)
                },
            forall|i: int, j: int|
                0 <= i < self.plants@.len() && 0 <= j < self.plants@[i].cells@.len() && (
                #[trigger] self.plants@[i].cells@[j]).cell_type is Leaf ==> listed(
                    lists.0@,
                    self.plants@[i].cells@[j].pos,
                    self.plants@[i].cells@[j].cell_type,
                ),
            forall|i: int, j: int|
                0 <= i < self.plants@.len() && 0 <= j < self.plants@[i].cells@.len() && (
                #[trigger] self.plants@[i].cells@[j]).cell_type is Trunk ==> listed(
                    lists.1@,
                    self.plants@[i].cells@[j].pos,
                    self.plants@[i].cells@[j].cell_type,
                ),
    {
        let mut leaves: Vec<(Pos, CellType)> = Vec::new();
        let mut trunks: Vec<(Pos, CellType)> = Vec::new();
        let mut i: usize = 0;
        while i < self.plants.len()
            invariant
                self.inv(),
                i <= self.plants@.len(),
                forall|k: int|
                    0 <= k < leaves@.len() ==> {
                        let entry = #[trigger] leaves@[k];
                        entry.1 is Leaf && entry.1.wf() && entry.0.in_grid(
                            self.width(),
                            self.height(),
                        ) && owns(self.plants@, entry.0, entry.1)
                    },
                forall|k: int|
                    0 <= k < trunks@.len() ==> {
                        let entry = #[trigger] trunks@[k];
                        entry.1 is Trunk && entry.1.wf() && entry.0.in_grid(
                            self.width(),
                            self.height(),
                        ) && owns(self.plants@, entry.0, entry.1)
                    },
                forall|a: int, b: int|
                    0 <= a < i && 0 <= b < self.plants@[a].cells@.len() && (
                    #[trigger] self.plants@[a].cells@[b]).cell_type is Leaf ==> listed(
                        leaves@,
                        self.plants@[a].cells@[b].pos,
                        self.plants@[a].cells@[b].cell_type,
                    ),
                forall|a: int, b: int|
                    0 <= a < i && 0 <= b < self.plants@[a].cells@.len() && (
                    #[trigger] self.plants@[a].cells@[b]).cell_type is Trunk ==> listed(
                        trunks@,
                        self.plants@[a].cells@[b].pos,
                        self.plants@[a].cells@[b].cell_type,
                    ),
            decreases self.plants@.len() - i,
        {
            let plant: &Plant = &self.plants[i];
            assert(living(self.plants@[i as int], self.width(), self.height()));
            let mut j: usize = 0;
            while j < plant.cells.len()
                invariant
                    self.inv(),
                    i < self.plants@.len(),
                    *plant == self.plants@[i as int],
                    living(*plant, self.width(), self.height()),
                    j <= plant.cells@.len(),
                    forall|k: int|
                        0 <= k < leaves@.len() ==> {
                            let entry = #[trigger] leaves@[k];
                            entry.1 is Leaf && entry.1.wf() && entry.0.in_grid(
                                self.width(),
                                self.height(),
                            ) && owns(self.plants@, entry.0, entry.1)
                        },
                    forall|k: int|
                        0 <= k < trunks@.len() ==> {
                            let entry = #[trigger] trunks@[k];
                            entry.1 is Trunk && entry.1.wf() && entry.0.in_grid(
                                self.width(),
                                self.height(),
                            ) && owns(self.plants@, entry.0, entry.1)
                        },
                    forall|a: int, b: int|
                        0 <= a < i && 0 <= b < self.plants@[a].cells@.len() && (
                        #[trigger] self.plants@[a].cells@[b]).cell_type is Leaf ==> listed(
                            leaves@,
                            self.plants@[a].cells@[b].pos,
                            self.plants@[a].cells@[b].cell_type,
                        ),
                    forall|a: int, b: int|
                        0 <= a < i && 0 <= b < self.plants@[a].cells@.len() && (
                        #[trigger] self.plants@[a].cells@[b]).cell_type is Trunk ==> listed(
                            trunks@,
                            self.plants@[a].cells@[b].pos,
                            self.plants@[a].cells@[b].cell_type,
                        ),
                    forall|b: int|
                        0 <= b < j && (#[trigger] plant.cells@[b]).cell_type is Leaf ==> listed(
                            leaves@,
                            plant.cells@[b].pos,
                            plant.cells@[b].cell_type,
                        ),
                    forall|b: int|
                        0 <= b < j && (#[trigger] plant.cells@[b]).cell_type is Trunk ==> listed(
                            trunks@,
                            plant.cells@[b].pos,
                            plant.cells@[b].cell_type,
                        ),
                decreases plant.cells@.len() - j,
            {
                let pos: Pos = plant.cells[j].get_pos();
                let cell: CellType = plant.cells[j].get_cell_type();
                let ghost old_leaves = leaves@;
                let ghost old_trunks = trunks@;
                assert(crate::plant_cell::ownable(plant.cells@[j as int]));
                match cell {
                    CellType::Leaf { .. } => {
                        leaves.push((pos, cell));
                    },
                    CellType::Trunk { .. } => {
                        trunks.push((pos, cell));
                    },
                    _ => {},
                }
                proof {
                    lemma_listed_grows(old_leaves, leaves@);
                    lemma_listed_grows(old_trunks, trunks@);
                    if cell is Leaf {
                        assert(leaves@[leaves@.len() - 1] == (pos, cell));
                    }
                    if cell is Trunk {
                        assert(trunks@[trunks@.len() - 1] == (pos, cell));
                    }
                }
                j += 1;
            }
            i += 1;
        }
        (leaves, trunks)
    }

    /// Writes every listed cell into the grid, in list order, so that for
    /// any position the last entry wins.
    pub fn stamp(&mut self, cells: &Vec<(Pos, CellType)>)
        requires
            grid_wf(old(self).cell_map@, old(self).width(), old(self).height()),
            forall|k: int|
                0 <= k < cells@.len() ==> (#[trigger] cells@[k]).0.in_grid(
                    old(self).width(),
                    old(self).height(),
                ) && cells@[k].1.wf(),
        ensures
            grid_wf(final(self).cell_map@, final(self).width(), final(self).height()),
            *final(self) == (Habitat { cell_map: final(self).cell_map, ..*old(self) }),
            forall|pos: Pos|
                pos.in_grid(old(self).width(), old(self).height()) ==> if listed_at(cells@, pos) {
                    listed(cells@, pos, #[trigger] final(self).cell_at(pos))
                } else {
                    final(self).cell_at(pos) == old(self).cell_at(pos)
                },
    {
        let mut n: usize = 0;
        while n < cells.len()
            invariant
                n <= cells@.len(),
                grid_wf(self.cell_map@, self.width(), self.height()),
                *self == (Habitat { cell_map: self.cell_map, ..*old(self) }),
                forall|k: int|
                    0 <= k < cells@.len() ==> (#[trigger] cells@[k]).0.in_grid(
                        self.width(),
                        self.height(),
                    ) && cells@[k].1.wf(),
                forall|pos: Pos|
                    pos.in_grid(self.width(), self.height()) ==> if listed_at(
                        cells@.take(n as int),
                        pos,
                    ) {
                        listed(cells@.take(n as int), pos, #[trigger] self.cell_at(pos))
                    } else {
                        self.cell_at(pos) == old(self).cell_at(pos)
                    },
            decreases cells@.len() - n,
        {
            let (pos, cell): (Pos, CellType) = cells[n];
            let ghost before = *self;
            let ghost done = cells@.take(n as int);
            let ghost next = cells@.take(n + 1);
            self.set_cell(pos, cell);
            proof {
                vstd::arithmetic::div_mod::lemma_small_mod(pos.x as nat, self.width() as nat);
                lemma_listed_grows(done, next);
                assert(next[n as int] == (pos, cell));
                assert forall|other: Pos|
                    other.in_grid(self.width(), self.height()) implies if listed_at(next, other) {
                    listed(next, other, #[trigger] self.cell_at(other))
                } else {
                    self.cell_at(other) == old(self).cell_at(other)
                } by {
                    if other == pos {
                    } else {
                        assert(self.cell_at(other) == before.cell_at(other));
                        if listed_at(next, other) {
                            let k = choose|k: int|
                                0 <= k < next.len() && (#[trigger] next[k]).0 == other;
                            assert(k < n);
                            assert(done[k].0 == other);
                        }
                    }
                }
            }
            n += 1;
        }
        assert(cells@.take(cells@.len() as int) =~= cells@);
    }

    /// Marks the remains of the dead wherever the grid is still empty.
    pub fn stamp_dead(&mut self)
        requires
            old(self).inv(),
        ensures
            final(self).inv(),
            *final(self) == (Habitat { cell_map: final(self).cell_map, ..*old(self) }),
            forall|pos: Pos|
                pos.in_grid(old(self).width(), old(self).height())
                    ==> #[trigger] final(self).cell_at(pos) == if old(self).cell_at(pos) is Empty
                    && dead_at(old(self).dead_cells@, pos) {
                    CellType::Dead
                } else {
                    old(self).cell_at(pos)
                },
    {
        let mut ix: usize = 0;
        while ix < self.dead_cells.len()
            invariant
                ix <= self.dead_cells@.len(),
                self.inv(),
                *self == (Habitat { cell_map: self.cell_map, ..*old(self) }),
                forall|pos: Pos|
                    pos.in_grid(self.width(), self.height()) ==> #[trigger] self.cell_at(pos)
                        == if old(self).cell_at(pos) is Empty && dead_at(
                        self.dead_cells@.take(ix as int),
                        pos,
                    ) {
                        CellType::Dead
                    } else {
                        old(self).cell_at(pos)
                    },
            decreases self.dead_cells@.len() - ix,
        {
            let pos: Pos = self.dead_cells[ix];
            let ghost before = *self;
            let ghost done = self.dead_cells@.take(ix as int);
            let ghost next = self.dead_cells@.take(ix + 1);
            assert(pos.in_grid(self.width(), self.height()));
            let empty: bool = match self.get_cell_at(pos) {
                CellType::Empty => true,
                _ => false,
            };
            if empty {
                self.set_cell(pos, CellType::Dead);
            }
            proof {
                vstd::arithmetic::div_mod::lemma_small_mod(pos.x as nat, self.width() as nat);
                assert(next[ix as int] == pos);
                assert forall|other: Pos|
                    other.in_grid(self.width(), self.height()) implies #[trigger] self.cell_at(
                    other,
                ) == if old(self).cell_at(other) is Empty && dead_at(next, other) {
                    CellType::Dead
                } else {
                    old(self).cell_at(other)
                } by {
                    if other == pos {
                    } else {
                        assert(self.cell_at(other) == before.cell_at(other));
                        if dead_at(next, other) {
                            let k = choose|k: int|
                                0 <= k < next.len() && #[trigger] next[k] == other;
                            assert(done[k] == other);
                        }
                        if dead_at(done, other) {
                            let k = choose|k: int|
                                0 <= k < done.len() && #[trigger] done[k] == other;
                            assert(next[k] == other);
                        }
                    }
                }
            }
            ix += 1;
        }
        assert(self.dead_cells@.take(self.dead_cells@.len() as int) =~= self.dead_cells@);
    }

    /// Rebuilds the grid from the living plants and the recorded remains:
    /// every cell is cleared, then the trunks are written, then the leaves,
    /// so that a leaf wins over a trunk on the same coordinate, and at last
    /// the remains, which show only where nothing living stands.
    pub fn apply_plants(&mut self)
        requires
            old(self).inv(),
        ensures
            final(self).inv(),
            rebuilt(*old(self), *final(self)),
    {
        self.cell_map = Habitat::empty_grid(self.grid_size);
        let ghost cleared = *self;
        let (leaves, trunks): (Vec<(Pos, CellType)>, Vec<(Pos, CellType)>) = self.collect_cells();
        self.stamp(&trunks);
        let ghost with_trunks = *self;
        self.stamp(&leaves);
        let ghost with_leaves = *self;
        self.stamp_dead();
        proof {
            assert forall|pos: Pos|
                pos.in_grid(old(self).width(), old(self).height()) implies shows(
                old(self).plants@,
                old(self).dead_cells@,
                pos,
                #[trigger] self.cell_at(pos),
            ) by {
                let plants = old(self).plants@;
                vstd::arithmetic::div_mod::lemma_small_mod(pos.x as nat, self.width() as nat);
                assert(cleared.cell_at(pos) == CellType::Empty);
                if leaf_claimed(plants, pos) {
                    let (i, j) = choose|i: int, j: int|
                        0 <= i < plants.len() && 0 <= j < plants[i].cells@.len() && (
                        #[trigger] plants[i].cells@[j]).pos == pos
                            && plants[i].cells@[j].cell_type is Leaf;
                    assert(listed(leaves@, pos, plants[i].cells@[j].cell_type));
                    let k = choose|k: int|
                        0 <= k < leaves@.len() && #[trigger] leaves@[k] == (
                            pos,
                            plants[i].cells@[j].cell_type,
                        );
                    assert(leaves@[k].0 == pos);
                    assert(listed_at(leaves@, pos));
                    let shown = with_leaves.cell_at(pos);
                    let m = choose|m: int|
                        0 <= m < leaves@.len() && #[trigger] leaves@[m] == (pos, shown);
                    assert(leaves@[m].1 is Leaf);
                } else {
                    if listed_at(leaves@, pos) {
                        let k = choose|k: int|
                            0 <= k < leaves@.len() && (#[trigger] leaves@[k]).0 == pos;
                        assert(owns(plants, leaves@[k].0, leaves@[k].1));
                        assert(false);
                    }
                    assert(with_leaves.cell_at(pos) == with_trunks.cell_at(pos));
                    if trunk_claimed(plants, pos) {
                        let (i, j) = choose|i: int, j: int|
                            0 <= i < plants.len() && 0 <= j < plants[i].cells@.len() && (
                            #[trigger] plants[i].cells@[j]).pos == pos
                                && plants[i].cells@[j].cell_type is Trunk;
                        assert(listed(trunks@, pos, plants[i].cells@[j].cell_type));
                        let k = choose|k: int|
                            0 <= k < trunks@.len() && #[trigger] trunks@[k] == (
                                pos,
                                plants[i].cells@[j].cell_type,
                            );
                        assert(trunks@[k].0 == pos);
                        assert(listed_at(trunks@, pos));
                        let shown = with_trunks.cell_at(pos);
                        let m = choose|m: int|
                            0 <= m < trunks@.len() && #[trigger] trunks@[m] == (pos, shown);
                        assert(trunks@[m].1 is Trunk);
                    } else {
                        if listed_at(trunks@, pos) {
                            let k = choose|k: int|
                                0 <= k < trunks@.len() && (#[trigger] trunks@[k]).0 == pos;
                            assert(owns(plants, trunks@[k].0, trunks@[k].1));
                            assert(false);
                        }
                        assert(with_trunks.cell_at(pos) == cleared.cell_at(pos));
                    }
                }
            }
        }
    }

    /// The position on the ring that a selection names.
    pub open spec fn selection_target(&self, pos: Pos) -> Pos {
        Pos { x: wrap_spec(pos.x as int, self.width()) as i32, y: pos.y }
    }

    /// Sets the position to inspect. Which plant stands there is resolved
    /// by the next tick, and again by every tick after it.
    pub fn select_pos(&mut self, pos: Pos)
        requires
            old(self).wf(),
            pos.in_rows(old(self).height()),
        ensures
            final(self).wf(),
            *final(self) == (Habitat {
                selected_pos: Some(pos),
                selected_plant_ix: None,
                selected_cell_ix: None,
                ..*old(self)
            }),
    {
        self.selected_pos = Some(pos);
        self.selected_plant_ix = None;
        self.selected_cell_ix = None;
    }

    /// Sets the population below which every tick drops a new seed.
    pub fn set_minimum_plants(&mut self, minimum_plants: usize)
        ensures
            *final(self) == (Habitat { minimum_plants, ..*old(self) }),
    {
        self.minimum_plants = minimum_plants;
    }

    /// Resolves the selection against the grid and the living plants. If
    /// the selected position shows a leaf or a trunk, the selection points
    /// at the last plant that owns a cell there and at the first such cell
    /// of that plant. Otherwise the selection is cleared.
    pub fn refresh_selection(&mut self)
        requires
            old(self).inv(),
        ensures
            final(self).wf(),
            selection_refreshed(*old(self), *final(self)),
    {
        let mut found_plant: Option<usize> = None;
        let mut found_cell: Option<usize> = None;
        let mut keep: bool = false;
        if let Some(selected_pos) = self.selected_pos {
            let selectable: bool = match self.get_cell_at(selected_pos) {
                CellType::Leaf { .. } | CellType::Trunk { .. } => true,
                _ => false,
            };
            if selectable {
                let target: Pos = Pos {
                    x: wrap(selected_pos.x, self.grid_size.x),
                    y: selected_pos.y,
                };
                let mut plant_ix: usize = 0;
                while plant_ix < self.plants.len()
                    invariant
                        plant_ix <= self.plants@.len(),
                        *self == *old(self),
                        target == self.selection_target(selected_pos),
                        match (found_plant, found_cell) {
                            (Some(p), Some(c)) => {
                                &&& p < plant_ix
                                &&& c < self.plants@[p as int].cells@.len()
                                &&& self.plants@[p as int].cells@[c as int].pos == target
                                &&& forall|i: int, j: int|
                                    p < i < plant_ix && 0 <= j < self.plants@[i].cells@.len() ==> (
                                    #[trigger] self.plants@[i].cells@[j]).pos != target
                                &&& forall|j: int|
                                    0 <= j < c ==> (#[trigger] self.plants@[p as int].cells@[j]).pos
                                        != target
                            },
                            (None, None) => forall|i: int, j: int|
                                0 <= i < plant_ix && 0 <= j < self.plants@[i].cells@.len() ==> (
                                #[trigger] self.plants@[i].cells@[j]).pos != target,
                            _ => false,
                        },
                    decreases self.plants@.len() - plant_ix,
                {
                    if let Some(cell_ix) = self.plants[plant_ix].get_cell_ix_at(target) {
                        found_plant = Some(plant_ix);
                        found_cell = Some(cell_ix);
                    }
                    plant_ix += 1;
                }
                keep = found_plant.is_some();
            }
        }
        if keep {
            self.selected_plant_ix = found_plant;
            self.selected_cell_ix = found_cell;
        } else {
            self.selected_plant_ix = None;
            self.selected_cell_ix = None;
            self.selected_pos = None;
        }
    }

    /// The bytes that show the grid: three per cell, red, green and blue,
    /// column by column, and within a column from the canopy down.
    pub fn get_rgb_data(&self) -> (rgb: Vec<u8>)
        requires
            self.inv(),
        ensures
            rgb@.len() == 3 * (self.width() * self.height()),
            forall|c: int, r: int|
                0 <= c < self.width() && 0 <= r < self.height() ==> {
                    let color = self.cell_map@[c]@[r].color_spec(self.config);
                    let at = #[trigger] byte_offset(c, r, self.height());
                    &&& rgb@[at] == color.r
                    &&& rgb@[at + 1] == color.g
                    &&& rgb@[at + 2] == color.b
                },
    {
        let mut rgb: Vec<u8> = Vec::new();
        let ghost height = self.height();
        let mut c: usize = 0;
        while c < self.cell_map.len()
            invariant
                self.inv(),
                height == self.height(),
                c <= self.width(),
                rgb@.len() == 3 * (c * height),
                forall|a: int, r: int|
                    0 <= a < c && 0 <= r < height ==> {
                        let color = self.cell_map@[a]@[r].color_spec(self.config);
                        let at = #[trigger] byte_offset(a, r, height);
                        &&& rgb@[at] == color.r
                        &&& rgb@[at + 1] == color.g
                        &&& rgb@[at + 2] == color.b
                    },
            decreases self.width() - c,
        {
            let column: &Vec<CellType> = &self.cell_map[c];
            let mut r: usize = 0;
            while r < column.len()
                invariant
                    self.inv(),
                    height == self.height(),
                    c < self.width(),
                    *column == self.cell_map@[c as int],
                    r <= height,
                    rgb@.len() == 3 * (c * height + r),
                    forall|a: int, b: int|
                        0 <= a < c && 0 <= b < height ==> {
                            let color = self.cell_map@[a]@[b].color_spec(self.config);
                            let at = #[trigger] byte_offset(a, b, height);
                            &&& rgb@[at] == color.r
                            &&& rgb@[at + 1] == color.g
                            &&& rgb@[at + 2] == color.b
                        },
                    forall|b: int|
                        0 <= b < r ==> {
                            let color = column@[b].color_spec(self.config);
                            let at = #[trigger] byte_offset(c as int, b, height);
                            &&& rgb@[at] == color.r
                            &&& rgb@[at + 1] == color.g
                            &&& rgb@[at + 2] == color.b
                        },
                decreases height - r,
            {
                let color: Rgb = column[r].get_color(&self.config);
                proof {
                    assert forall|a: int, b: int|
                        0 <= a < c && 0 <= b < height implies #[trigger] byte_offset(a, b, height)
                        + 2 < byte_offset(c as int, r as int, height) by {
                        lemma_cell_order(a, b, c as int, r as int, height);
                    }
                }
                rgb.push(color.r);
                rgb.push(color.g);
                rgb.push(color.b);
                r += 1;
            }
            proof {
                assert((c + 1) * height == c * height + height) by (nonlinear_arith);
            }
            c += 1;
        }
        rgb
    }

    /// What there is to know about the selected plant: its energy in
    /// millionths and the number of its cells, each under its name and as
    /// decimal text. Nothing is reported while no position is selected or
    /// the selection has not been resolved to a living plant.
    pub fn get_focus_information(&self) -> (information: Option<Vec<(String, String)>>)
        requires
            self.wf(),
        ensures
            information is None <==> (self.selected_pos is None || self.selected_plant_ix is None),
            information matches Some(entries) ==> {
                let plant = self.plants@[self.selected_plant_ix->0 as int];
                &&& entries@.len() == 2
                &&& entries@[0].0@ == "energy"@
                &&& vstd::string::to_string_from_display_ensures::<i64>(
                    &plant.energy,
                    entries@[0].1,
                )
                &&& entries@[1].0@ == "cell_count"@
                &&& vstd::string::to_string_from_display_ensures::<usize>(
                    &(plant.cells@.len() as usize),
                    entries@[1].1,
                )
            },
    {
        if self.selected_pos.is_none() {
            return None;
        }
        match self.selected_plant_ix {
            Some(selected_plant_ix) => {
                let plant: &Plant = &self.plants[selected_plant_ix];
                let energy: i64 = plant.get_energy();
                let cell_count: usize = plant.cells.len();
                let mut information: Vec<(String, String)> = Vec::new();
                information.push(("energy".to_owned(), energy.to_string()));
                information.push(("cell_count".to_owned(), cell_count.to_string()));
                Some(information)
            },
            None => None,
        }
    }

    /// Lets every rooted plant age by one tick.
    pub fn age_plants(&mut self)
        requires
            old(self).inv(),
        ensures
            final(self).inv(),
            aged(*old(self), *final(self)),
    {
        step_all(&mut self.plants, &self.config);
        proof {
            assert forall|i: int| 0 <= i < self.plants@.len() implies living(
                #[trigger] self.plants@[i],
                self.width(),
                self.height(),
            ) by {
                assert(living(old(self).plants@[i], self.width(), self.height()));
            }
        }
    }

    /// Runs the sunlight pass on one column, from the canopy down. The
    /// light starts at full strength; every leaf records and removes its
    /// share of what reaches it, every trunk and dead cell removes its
    /// share, and everything else lets the light pass.
    pub fn column_update(column: &mut Vec<CellType>, config: &Config)
        requires
            config.wf(),
        ensures
            final(column)@ == lit(old(column)@, *config),
    {
        let mut current_energy: u32 = crate::ratio::UNIT;
        let mut i: usize = 0;
        while i < column.len()
            invariant
                config.wf(),
                i <= column@.len(),
                column@.len() == old(column)@.len(),
                current_energy == light_at(old(column)@, i as nat, *config),
                forall|k: int|
                    0 <= k < i ==> #[trigger] column@[k] == lit_cell(
                        old(column)@[k],
                        light_at(old(column)@, k as nat, *config),
                        *config,
                    ),
                forall|k: int| i <= k < column@.len() ==> #[trigger] column@[k] == old(column)@[k],
            decreases column@.len() - i,
        {
            proof {
                lemma_light_bounded(old(column)@, i as nat, *config);
            }
            match column[i] {
                CellType::Empty | CellType::Seed => {},
                CellType::Leaf { .. } => {
                    let sun_absorbed: u32 = config.leaf_absorb_rate.scale(current_energy);
                    column[i] = CellType::Leaf { sun_absorbed };
                    current_energy = current_energy - sun_absorbed;
                },
                CellType::Trunk { .. } | CellType::Dead => {
                    current_energy = current_energy - config.trunk_absorb_rate.scale(
                        current_energy,
                    );
                },
            }
            i += 1;
        }
        assert(column@ =~= lit(old(column)@, *config));
    }

    /// Runs the sunlight pass on every column.
    pub fn update_all_columns(&mut self)
        requires
            old(self).inv(),
        ensures
            final(self).inv(),
            sunlit(*old(self), *final(self)),
    {
        step_all(&mut self.cell_map, &self.config);
        proof {
            assert forall|c: int, r: int|
                0 <= c < self.width() && 0 <= r < self.height() implies (
            #[trigger] self.cell_map@[c]@[r]).wf() by {
                crate::light::lemma_lit_wf(old(self).cell_map@[c]@, self.config, r);
            }
        }
    }
}

/// The grid is exclusive. Whatever a rebuilt grid shows at a coordinate is
/// of one kind only; where a leaf and a trunk of living plants meet on a
/// coordinate, the leaf is what shows; a leaf or a trunk that shows is the
/// cell of a living plant on that very coordinate; and the remains of the
/// dead show only where no living plant has a cell.
pub proof fn lemma_grid_exclusive(
    plants: Seq<Plant>,
    dead_cells: Seq<Pos>,
    pos: Pos,
    first: CellType,
    second: CellType,
)
    requires
        shows(plants, dead_cells, pos, first),
        shows(plants, dead_cells, pos, second),
    ensures
        first is Leaf <==> second is Leaf,
        first is Trunk <==> second is Trunk,
        first is Dead <==> second is Dead,
        first is Empty <==> second is Empty,
        !(first is Seed),
        leaf_claimed(plants, pos) <==> first is Leaf,
        trunk_claimed(plants, pos) && !leaf_claimed(plants, pos) <==> first is Trunk,
        first is Leaf || first is Trunk ==> owns(plants, pos, first),
        first is Dead <==> dead_at(dead_cells, pos) && !leaf_claimed(plants, pos) && !trunk_claimed(
            plants,
            pos,
        ),
{
}

/// Whether `post` is `pre` with a fresh leaf on the cell at `place`, which
/// was empty: that cell holds a leaf that has not yet seen the sun, and
/// nothing else has changed, in the grid or beside it.
pub open spec fn leaf_placed(pre: Habitat, post: Habitat, place: Pos) -> bool {
    &&& post == (Habitat { cell_map: post.cell_map, ..pre })
    &&& place.in_grid(pre.width(), pre.height())
    &&& pre.cell_at(place) is Empty
    &&& post.cell_at(place) == (CellType::Leaf { sun_absorbed: 0 })
    &&& forall|other: Pos|
        other.in_grid(pre.width(), pre.height()) && other != place ==> #[trigger] post.cell_at(
            other,
        ) == pre.cell_at(other)
}

/// Whether every cell of the grid is empty.
pub open spec fn every_cell_empty(world: Habitat) -> bool {
    forall|pos: Pos|
        pos.in_grid(world.width(), world.height()) ==> #[trigger] world.cell_at(pos) is Empty
}

/// Whether no cell of the grid is empty.
pub open spec fn no_cell_empty(world: Habitat) -> bool {
    forall|pos: Pos|
        pos.in_grid(world.width(), world.height()) ==> !(#[trigger] world.cell_at(pos) is Empty)
}

/// Where the three bytes of a cell begin in the display data: cells are laid
/// out column by column, and within a column from the canopy down.
pub open spec fn byte_offset(column: int, row: int, height: int) -> int {
    3 * (column * height + row)
}

/// In column-major order, every cell of an earlier column comes before
/// every cell of a later one.
pub proof fn lemma_cell_order(a: int, b: int, c: int, r: int, height: int)
    by (nonlinear_arith)
    requires
        0 <= a < c,
        0 <= b < height,
        0 <= r,
    ensures
        3 * (a * height + b) + 2 < 3 * (c * height + r),
{
}

/// Whatever a list holds, it still holds after more entries were appended.
pub proof fn lemma_listed_grows(shorter: Seq<(Pos, CellType)>, longer: Seq<(Pos, CellType)>)
    requires
        shorter.len() <= longer.len(),
        forall|k: int| 0 <= k < shorter.len() ==> #[trigger] shorter[k] == longer[k],
    ensures
        forall|pos: Pos, cell: CellType|
            #[trigger] listed(shorter, pos, cell) ==> listed(longer, pos, cell),
        forall|pos: Pos| #[trigger] listed_at(shorter, pos) ==> listed_at(longer, pos),
{
    assert forall|pos: Pos, cell: CellType| #[trigger]
        listed(shorter, pos, cell) implies listed(longer, pos, cell) by {
        let k = choose|k: int| 0 <= k < shorter.len() && #[trigger] shorter[k] == (pos, cell);
        assert(longer[k] == (pos, cell));
    }
    assert forall|pos: Pos| #[trigger] listed_at(shorter, pos) implies listed_at(longer, pos) by {
        let k = choose|k: int| 0 <= k < shorter.len() && (#[trigger] shorter[k]).0 == pos;
        assert(longer[k].0 == pos);
    }
}

} // verus!
