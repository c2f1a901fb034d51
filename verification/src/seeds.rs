//! The life of a seed: dropped at the canopy, drifting down through the
//! air, waiting in the ground, and germinating where the ground is free.

use vstd::prelude::*;
use crate::cell_types::CellType;
use crate::chance::{pick_index, random_range};
use crate::config::{Config, GENOME_SIZE};
use crate::energy::saturated;
use crate::habitat::{airborne, grounded, living, Habitat};
use crate::plant::Plant;
use crate::plant_cell::{ownable, PlantCell};
use crate::position::{wrap, wrap_spec, Pos};

verus! {

/// The number of seeds in the first `count` columns of the ground.
pub open spec fn buffered_in_first(ground: Seq<Vec<Plant>>, count: nat) -> nat
    decreases count,
{
    if count == 0 {
        0
    } else {
        buffered_in_first(ground, (count - 1) as nat) + ground[count - 1]@.len()
    }
}

/// Where a seed is after one tick of flight with the given drift: one row
/// lower and up to one column aside on the ring, or on the ground of that
/// column if it was already in the lowest row.
pub open spec fn flown_pos(pos: Pos, drift: int, width: int) -> Pos {
    Pos {
        x: wrap_spec(pos.x + drift, width) as i32,
        y: if pos.y > 0 {
            (pos.y - 1) as i32
        } else {
            0
        },
    }
}

/// A seed after one tick of flight.
pub open spec fn flown(seed: Plant, drift: int, width: int) -> Plant {
    Plant { pos: flown_pos(seed.pos, drift, width), ..seed }
}

/// The seeds among the first `count` that are still in the air after one
/// tick of flight, in their order.
pub open spec fn still_airborne(seeds: Seq<Plant>, drifts: Seq<i32>, width: int, count: nat)
    -> Seq<Plant>
    decreases count,
{
    if count == 0 {
        Seq::empty()
    } else {
        still_airborne(seeds, drifts, width, (count - 1) as nat) + if seeds[count - 1].pos.y > 0 {
            seq![flown(seeds[count - 1], drifts[count - 1] as int, width)]
        } else {
            Seq::empty()
        }
    }
}

/// The seeds among the first `count` that land in the given column in this
/// tick, in their order.
pub open spec fn landed_in(
    seeds: Seq<Plant>,
    drifts: Seq<i32>,
    width: int,
    column: int,
    count: nat,
) -> Seq<Plant>
    decreases count,
{
    if count == 0 {
        Seq::empty()
    } else {
        landed_in(seeds, drifts, width, column, (count - 1) as nat) + if seeds[count - 1].pos.y
            <= 0 && wrap_spec(seeds[count - 1].pos.x + drifts[count - 1], width) == column {
            seq![flown(seeds[count - 1], drifts[count - 1] as int, width)]
        } else {
            Seq::empty()
        }
    }
}

/// The number of seeds among the first `count` that land in one of the
/// first `columns` columns in this tick.
pub open spec fn landed_in_first(
    seeds: Seq<Plant>,
    drifts: Seq<i32>,
    width: int,
    columns: nat,
    count: nat,
) -> nat
    decreases columns,
{
    if columns == 0 {
        0
    } else {
        landed_in_first(seeds, drifts, width, (columns - 1) as nat, count) + landed_in(
            seeds,
            drifts,
            width,
            columns - 1,
            count,
        ).len()
    }
}

/// Whether a seed is in the air at `pos`.
pub open spec fn seed_at(seeds: Seq<Plant>, pos: Pos) -> bool {
    exists|k: int| 0 <= k < seeds.len() && (#[trigger] seeds[k]).pos == pos
}

/// The index of the seed that germinates from the first `count` seeds of a
/// buffer: the one with the highest energy, and the last of these if
/// several are equal.
pub open spec fn strongest_of_first(buffer: Seq<Plant>, count: nat) -> int
    decreases count,
{
    if count <= 1 {
        0
    } else {
        let before = strongest_of_first(buffer, (count - 1) as nat);
        if buffer[count - 1].energy >= buffer[before].energy {
            count - 1
        } else {
            before
        }
    }
}

/// The seeds among the first `count` that survive another tick in the
/// ground, each after paying the drain: those left with energy above zero.
pub open spec fn survivors_of_first(waiting: Seq<Plant>, drain: i64, count: nat) -> Seq<Plant>
    decreases count,
{
    if count == 0 {
        Seq::empty()
    } else {
        let paid = saturated(waiting[count - 1].energy - drain);
        survivors_of_first(waiting, drain, (count - 1) as nat) + if paid > 0 {
            seq![Plant { energy: paid, ..waiting[count - 1] }]
        } else {
            Seq::empty()
        }
    }
}

/// Whether `plant` is `seed` after germination: rooted, with a single root
/// cell where the seed lay, and otherwise unchanged.
pub open spec fn germinated_from(seed: Plant, plant: Plant) -> bool {
    &&& plant.has_root
    &&& plant.cells@ == seed.cells@.push(PlantCell::root_spec(seed.pos))
    &&& plant.pos == seed.pos
    &&& plant.energy == seed.energy
    &&& plant.lifetime == seed.lifetime
    &&& plant.genome == seed.genome
    &&& plant.response_clusters == seed.response_clusters
}

/// A plant that has just germinated: rooted on the ground, of age zero,
/// with its root as its only cell.
pub open spec fn freshly_rooted(plant: Plant) -> bool {
    &&& plant.has_root
    &&& plant.lifetime == 0
    &&& plant.pos.y == 0
    &&& plant.cells@ == seq![PlantCell::root_spec(plant.pos)]
}

/// Every seed that survives in the ground has energy left.
pub proof fn lemma_survivors_have_energy(waiting: Seq<Plant>, drain: i64, count: nat)
    requires
        count <= waiting.len(),
    ensures
        forall|k: int|
            0 <= k < survivors_of_first(waiting, drain, count).len() ==> (
            #[trigger] survivors_of_first(waiting, drain, count)[k]).energy > 0,
    decreases count,
{
    if count > 0 {
        lemma_survivors_have_energy(waiting, drain, (count - 1) as nat);
        let before = survivors_of_first(waiting, drain, (count - 1) as nat);
        let now = survivors_of_first(waiting, drain, count);
        assert forall|k: int| 0 <= k < now.len() implies (#[trigger] now[k]).energy > 0 by {
            if k < before.len() {
                assert(now[k] == before[k]);
            }
        }
    }
}

/// One more seed adds one to the seeds landed in the first `columns`
/// columns if it lands in one of them, and nothing otherwise.
pub proof fn lemma_landed_step(
    seeds: Seq<Plant>,
    drifts: Seq<i32>,
    width: int,
    columns: nat,
    count: nat,
)
    requires
        0 < count,
    ensures
        landed_in_first(seeds, drifts, width, columns, count) == landed_in_first(
            seeds,
            drifts,
            width,
            columns,
            (count - 1) as nat,
        ) + if seeds[count - 1].pos.y <= 0 && 0 <= wrap_spec(
            seeds[count - 1].pos.x + drifts[count - 1],
            width,
        ) < columns {
            1nat
        } else {
            0nat
        },
    decreases columns,
{
    if columns > 0 {
        lemma_landed_step(seeds, drifts, width, (columns - 1) as nat, count);
    }
}

/// Every seed is either still in the air after its flight or has landed in
/// exactly one column of the grid.
pub proof fn lemma_flight_splits(seeds: Seq<Plant>, drifts: Seq<i32>, width: int, count: nat)
    requires
        0 < width,
        count <= seeds.len(),
        count <= drifts.len(),
    ensures
        still_airborne(seeds, drifts, width, count).len() + landed_in_first(
            seeds,
            drifts,
            width,
            width as nat,
            count,
        ) == count,
    decreases count,
{
    if count == 0 {
        lemma_nothing_landed(seeds, drifts, width, width as nat);
    } else {
        lemma_flight_splits(seeds, drifts, width, (count - 1) as nat);
        lemma_landed_step(seeds, drifts, width, width as nat, count);
        vstd::arithmetic::div_mod::lemma_mod_bound(
            seeds[count - 1].pos.x + drifts[count - 1],
            width,
        );
    }
}

/// Before any seed has flown, none has landed.
pub proof fn lemma_nothing_landed(seeds: Seq<Plant>, drifts: Seq<i32>, width: int, columns: nat)
    ensures
        landed_in_first(seeds, drifts, width, columns, 0) == 0,
    decreases columns,
{
    if columns > 0 {
        lemma_nothing_landed(seeds, drifts, width, (columns - 1) as nat);
    }
}

/// The seeds in the ground after a flight are the seeds that were there
/// and the seeds that landed.
pub proof fn lemma_ground_after_flight(
    before: Seq<Vec<Plant>>,
    after: Seq<Vec<Plant>>,
    seeds: Seq<Plant>,
    drifts: Seq<i32>,
    width: int,
    columns: nat,
)
    requires
        columns <= before.len(),
        columns <= after.len(),
        forall|c: int|
            0 <= c < columns ==> (#[trigger] after[c])@ == before[c]@ + landed_in(
                seeds,
                drifts,
                width,
                c,
                seeds.len(),
            ),
    ensures
        buffered_in_first(after, columns) == buffered_in_first(before, columns) + landed_in_first(
            seeds,
            drifts,
            width,
            columns,
            seeds.len(),
        ),
    decreases columns,
{
    if columns > 0 {
        lemma_ground_after_flight(before, after, seeds, drifts, width, (columns - 1) as nat);
    }
}

/// Flight loses no seed and makes none: the number of plants of all kinds
/// is the same before and after the seeds have flown.
pub proof fn lemma_flight_keeps_count(pre: Habitat, post: Habitat)
    requires
        pre.inv(),
        post.inv(),
        seeds_flew(pre, post),
    ensures
        post.total_plants() == pre.total_plants(),
{
    let drifts = choose|drifts: Seq<i32>|
        {
            &&& drifts.len() == pre.seeds@.len()
            &&& forall|k: int| 0 <= k < drifts.len() ==> -1 <= #[trigger] drifts[k] <= 1
            &&& post.seeds@ == #[trigger] still_airborne(
                pre.seeds@,
                drifts,
                pre.width(),
                pre.seeds@.len(),
            )
            &&& forall|c: int|
                0 <= c < pre.width() ==> (#[trigger] post.ground_buffer@[c])@
                    == pre.ground_buffer@[c]@ + landed_in(
                    pre.seeds@,
                    drifts,
                    pre.width(),
                    c,
                    pre.seeds@.len(),
                )
        };
    lemma_flight_splits(pre.seeds@, drifts, pre.width(), pre.seeds@.len());
    lemma_ground_after_flight(
        pre.ground_buffer@,
        post.ground_buffer@,
        pre.seeds@,
        drifts,
        pre.width(),
        pre.width() as nat,
    );
}

/// Whether a seed can wait another tick in the ground: it has energy left
/// after paying the drain.
pub open spec fn can_wait(seed: Plant, drain: i64) -> bool {
    saturated(seed.energy - drain) > 0
}

/// Of the seeds that wait, none appears from nowhere: at most as many
/// survive as waited, and all of them survive if each can pay the drain.
pub proof fn lemma_survivors_count(waiting: Seq<Plant>, drain: i64, count: nat)
    requires
        count <= waiting.len(),
    ensures
        survivors_of_first(waiting, drain, count).len() <= count,
        (forall|k: int| 0 <= k < count ==> can_wait(#[trigger] waiting[k], drain))
            ==> survivors_of_first(waiting, drain, count).len() == count,
    decreases count,
{
    if count > 0 {
        lemma_survivors_count(waiting, drain, (count - 1) as nat);
    }
}

/// Settling the ground loses no plant but those that wither: the rooted
/// plants and the waiting seeds together are at most as many afterwards as
/// before, and exactly as many if every waiting seed can pay the drain.
pub proof fn lemma_settling_account(pre: Habitat, post: Habitat, columns: nat)
    requires
        pre.inv(),
        ground_settled(pre, post),
        columns <= pre.width(),
    ensures
        pre.germinating_in_first(columns).len() + buffered_in_first(post.ground_buffer@, columns)
            <= buffered_in_first(pre.ground_buffer@, columns),
        (forall|c: int, k: int|
            0 <= c < columns && 0 <= k < pre.ground_buffer@[c]@.len() ==> can_wait(
                #[trigger] pre.ground_buffer@[c]@[k],
                pre.config.seed_energy_drain,
            )) ==> pre.germinating_in_first(columns).len() + buffered_in_first(
            post.ground_buffer@,
            columns,
        ) == buffered_in_first(pre.ground_buffer@, columns),
    decreases columns,
{
    if columns > 0 {
        let c = columns - 1;
        lemma_settling_account(pre, post, c as nat);
        let buffer = pre.ground_buffer@[c]@;
        let waiting = pre.waiting(c);
        let drain = pre.config.seed_energy_drain;
        lemma_survivors_count(waiting, drain, waiting.len());
        assert(post.ground_buffer@[c]@ == survivors_of_first(waiting, drain, waiting.len()));
        if pre.germinates(c) {
            lemma_strongest_is_maximal(buffer, buffer.len());
        }
        if forall|a: int, k: int|
            0 <= a < columns && 0 <= k < pre.ground_buffer@[a]@.len() ==> can_wait(
                #[trigger] pre.ground_buffer@[a]@[k],
                drain,
            ) {
            assert forall|k: int| 0 <= k < waiting.len() implies can_wait(
                #[trigger] waiting[k],
                drain,
            ) by {
                if pre.germinates(c) {
                    let gone = strongest_of_first(buffer, buffer.len());
                    if k < gone {
                        assert(waiting[k] == pre.ground_buffer@[c]@[k]);
                    } else {
                        assert(waiting[k] == pre.ground_buffer@[c]@[k + 1]);
                    }
                } else {
                    assert(waiting[k] == pre.ground_buffer@[c]@[k]);
                }
            }
        }
    }
}

/// The strongest seed is at least as strong as every other.
pub proof fn lemma_strongest_is_maximal(buffer: Seq<Plant>, count: nat)
    requires
        0 < count <= buffer.len(),
    ensures
        0 <= strongest_of_first(buffer, count) < count,
        forall|k: int|
            0 <= k < count ==> (#[trigger] buffer[k]).energy <= buffer[strongest_of_first(
                buffer,
                count,
            )].energy,
    decreases count,
{
    if count > 1 {
        lemma_strongest_is_maximal(buffer, (count - 1) as nat);
    }
}

/// The seeds in the air have flown for one tick: each fell by a row and
/// drifted by at most one column, and those that were in the lowest row
/// have landed in the buffer of the column they drifted to.
pub open spec fn seeds_flew(pre: Habitat, post: Habitat) -> bool {
    &&& post == (Habitat {
        seeds: post.seeds,
        ground_buffer: post.ground_buffer,
        ..pre
    })
    &&& exists|drifts: Seq<i32>|
        {
            &&& drifts.len() == pre.seeds@.len()
            &&& forall|k: int| 0 <= k < drifts.len() ==> -1 <= #[trigger] drifts[k] <= 1
            &&& post.seeds@ == #[trigger] still_airborne(
                pre.seeds@,
                drifts,
                pre.width(),
                pre.seeds@.len(),
            )
            &&& forall|c: int|
                0 <= c < pre.width() ==> (#[trigger] post.ground_buffer@[c])@
                    == pre.ground_buffer@[c]@ + landed_in(
                    pre.seeds@,
                    drifts,
                    pre.width(),
                    c,
                    pre.seeds@.len(),
                )
        }
}

/// The ground is settled: in every column with an empty ground cell the
/// strongest waiting seed has taken root and joined the living, and every
/// other waiting seed has paid the drain or withered.
pub open spec fn ground_settled(pre: Habitat, post: Habitat) -> bool {
    let columns = pre.germinating_in_first(pre.width() as nat);
    &&& post == (Habitat { plants: post.plants, ground_buffer: post.ground_buffer, ..pre })
    &&& forall|c: int|
        0 <= c < pre.width() ==> (#[trigger] post.ground_buffer@[c])@ == survivors_of_first(
            pre.waiting(c),
            pre.config.seed_energy_drain,
            pre.waiting(c).len(),
        )
    &&& post.plants@.len() == pre.plants@.len() + columns.len()
    &&& forall|k: int| 0 <= k < pre.plants@.len() ==> #[trigger] post.plants@[k] == pre.plants@[k]
    &&& forall|k: int|
        0 <= k < columns.len() ==> germinated_from(
            pre.sprout(columns[k]),
            #[trigger] post.plants@[pre.plants@.len() + k],
        )
    &&& forall|k: int|
        pre.plants@.len() <= k < post.plants@.len() ==> freshly_rooted(#[trigger] post.plants@[k])
}

/// The seeds in the air are shown: nothing but the grid changes, and a
/// cell shows a seed exactly where one is in the air.
pub open spec fn seeds_shown(pre: Habitat, post: Habitat) -> bool {
    &&& post == (Habitat { cell_map: post.cell_map, ..pre })
    &&& forall|pos: Pos|
        pos.in_grid(pre.width(), pre.height()) ==> #[trigger] post.cell_at(pos) == if seed_at(
            pre.seeds@,
            pos,
        ) {
            CellType::Seed
        } else {
            pre.cell_at(pos)
        }
}

/// A seed without ancestry at `pos`: not rooted, without cells, of age
/// zero, with the default energy, a genome of full size, and rules decoded
/// from that genome.
pub open spec fn fresh_seed(seed: Plant, pos: Pos, config: Config) -> bool {
    &&& seed.wf()
    &&& seed.pos == pos
    &&& !seed.has_root
    &&& seed.cells@.len() == 0
    &&& seed.lifetime == 0
    &&& seed.energy == config.default_energy
    &&& seed.genome@.data.len() == GENOME_SIZE
    &&& seed.phenotype_matches_genome(config)
}

/// A seed is dropped at the canopy of the given column: if the top cell of
/// the column is empty, one fresh seed has joined the seeds in the air
/// there; otherwise nothing has changed.
pub open spec fn dropped_at(pre: Habitat, post: Habitat, column: int) -> bool {
    &&& post == (Habitat { seeds: post.seeds, ..pre })
    &&& if pre.top_is_free(column) {
        &&& post.seeds@.len() == pre.seeds@.len() + 1
        &&& post.seeds@.drop_last() == pre.seeds@
        &&& fresh_seed(
            post.seeds@.last(),
            Pos { x: column as i32, y: (pre.height() - 1) as i32 },
            pre.config,
        )
    } else {
        post.seeds@ == pre.seeds@
    }
}

/// A seed is dropped at the canopy of some column of the grid.
pub open spec fn seed_dropped(pre: Habitat, post: Habitat) -> bool {
    exists|column: int| 0 <= column < pre.width() && #[trigger] dropped_at(pre, post, column)
}

/// A seed that is dropped on an empty top cell raises the number of plants
/// of all kinds by exactly one; a seed that finds the cell taken changes
/// nothing.
pub proof fn lemma_drop_adds_one(pre: Habitat, post: Habitat, column: int)
    requires
        dropped_at(pre, post, column),
    ensures
        pre.top_is_free(column) ==> post.total_plants() == pre.total_plants() + 1,
        !pre.top_is_free(column) ==> post.total_plants() == pre.total_plants(),
{
}

/// The population floor is enforced: if fewer plants of all kinds existed
/// than the minimum, a seed may have been dropped at the canopy; otherwise
/// nothing has changed.
pub open spec fn floor_enforced(pre: Habitat, post: Habitat) -> bool {
    if pre.total_plants() < pre.minimum_plants {
        seed_dropped(pre, post)
    } else {
        post == pre
    }
}

impl Habitat {
    /// The number of plants of every kind: rooted, in the air, and in the
    /// ground.
    pub open spec fn total_plants(&self) -> nat {
        self.plants@.len() + self.seeds@.len() + buffered_in_first(
            self.ground_buffer@,
            self.ground_buffer@.len(),
        )
    }

    /// Counts all plants in existence: the rooted ones, the seeds in the
    /// air and the seeds in the ground. A count beyond the machine range is
    /// reported as the largest number.
    pub fn get_total_plant_count(&self) -> (count: usize)
        ensures
            count == if self.total_plants() <= usize::MAX {
                self.total_plants()
            } else {
                usize::MAX as nat
            },
    {
        let mut buffered: usize = 0;
        let mut c: usize = 0;
        while c < self.ground_buffer.len()
            invariant
                c <= self.ground_buffer@.len(),
                buffered == if buffered_in_first(self.ground_buffer@, c as nat) <= usize::MAX {
                    buffered_in_first(self.ground_buffer@, c as nat)
                } else {
                    usize::MAX as nat
                },
            decreases self.ground_buffer@.len() - c,
        {
            buffered = buffered.saturating_add(self.ground_buffer[c].len());
            c += 1;
        }
        self.plants.len().saturating_add(self.seeds.len()).saturating_add(buffered)
    }

    /// Whether the cell in the top row of the given column is empty.
    pub open spec fn top_is_free(&self, column: int) -> bool {
        self.cell_at(Pos { x: column as i32, y: (self.height() - 1) as i32 }) is Empty
    }

    /// Drops a seed with a fresh genome into the top row of the given
    /// column, if that cell is empty; otherwise nothing happens.
    pub fn spawn_plant_at(&mut self, column: i32)
        requires
            old(self).inv(),
            0 <= column < old(self).width(),
        ensures
            final(self).inv(),
            dropped_at(*old(self), *final(self), column as int),
            final(self).total_plants() == old(self).total_plants() + if old(self).top_is_free(
                column as int,
            ) {
                1nat
            } else {
                0nat
            },
    {
        let pos: Pos = Pos { x: column, y: self.grid_size.y - 1 };
        let empty: bool = match self.get_cell_at(pos) {
            CellType::Empty => true,
            _ => false,
        };
        if empty {
            let seed: Plant = Plant::new(pos, &self.config);
            assert(airborne(seed, self.width(), self.height()));
            let ghost before = self.seeds@;
            self.seeds.push(seed);
            assert(self.seeds@.drop_last() =~= before);
        }
    }

    /// Drops a seed with a fresh genome into the top row of a column
    /// chosen by chance, if the cell there is empty.
    pub fn spawn_plant(&mut self)
        requires
            old(self).wf(),
        ensures
            final(self).wf(),
            seed_dropped(*old(self), *final(self)),
    {
        let column: i32 = random_range(0, self.grid_size.x);
        self.spawn_plant_at(column);
    }

    /// Keeps the population at its floor: if fewer plants of all kinds
    /// exist than the minimum, one seed is dropped at the canopy.
    pub fn enforce_minimum(&mut self)
        requires
            old(self).wf(),
        ensures
            final(self).wf(),
            floor_enforced(*old(self), *final(self)),
    {
        if self.get_total_plant_count() < self.minimum_plants {
            self.spawn_plant()
        }
    }

    /// Moves every seed in the air by one tick of flight with the given
    /// drifts, one per seed and each of at most one column. A seed that was
    /// in the lowest row lands: it leaves the air and joins the buffer of
    /// the column it drifted to.
    pub fn fly_seeds(&mut self, drifts: &Vec<i32>)
        requires
            old(self).inv(),
            drifts@.len() == old(self).seeds@.len(),
            forall|k: int| 0 <= k < drifts@.len() ==> -1 <= #[trigger] drifts@[k] <= 1,
        ensures
            final(self).inv(),
            *final(self) == (Habitat {
                seeds: final(self).seeds,
                ground_buffer: final(self).ground_buffer,
                ..*old(self)
            }),
            final(self).seeds@ == still_airborne(
                old(self).seeds@,
                drifts@,
                old(self).width(),
                old(self).seeds@.len(),
            ),
            forall|c: int|
                0 <= c < old(self).width() ==> (#[trigger] final(self).ground_buffer@[c])@
                    == old(self).ground_buffer@[c]@ + landed_in(
                    old(self).seeds@,
                    drifts@,
                    old(self).width(),
                    c,
                    old(self).seeds@.len(),
                ),
    {
        let ghost start = *self;
        let mut flying: Vec<Plant> = Vec::new();
        core::mem::swap(&mut self.seeds, &mut flying);
        let ghost all = flying@;
        let ghost width = self.width();
        proof {
            assert forall|c: int| 0 <= c < width implies (#[trigger] self.ground_buffer@[c])@
                == start.ground_buffer@[c]@ + landed_in(all, drifts@, width, c, 0) by {
                assert(start.ground_buffer@[c]@ + Seq::<Plant>::empty()
                    =~= start.ground_buffer@[c]@);
            }
        }
        let mut n: usize = 0;
        let count: usize = drifts.len();
        for seed in it: flying
            invariant
                n == it.index(),
                count == all.len(),
                it.seq() == all,
                all == start.seeds@,
                start.inv(),
                width == start.width(),
                drifts@.len() == all.len(),
                forall|k: int| 0 <= k < drifts@.len() ==> -1 <= #[trigger] drifts@[k] <= 1,
                *self == (Habitat {
                    seeds: self.seeds,
                    ground_buffer: self.ground_buffer,
                    ..start
                }),
                self.ground_buffer@.len() == width,
                self.seeds@ == still_airborne(all, drifts@, width, it.index() as nat),
                forall|c: int|
                    0 <= c < width ==> (#[trigger] self.ground_buffer@[c])@
                        == start.ground_buffer@[c]@ + landed_in(
                        all,
                        drifts@,
                        width,
                        c,
                        it.index() as nat,
                    ),
                forall|k: int|
                    0 <= k < self.seeds@.len() ==> airborne(
                        #[trigger] self.seeds@[k],
                        width,
                        start.height(),
                    ),
                forall|c: int, k: int|
                    0 <= c < width && 0 <= k < self.ground_buffer@[c]@.len() ==> grounded(
                        #[trigger] self.ground_buffer@[c]@[k],
                        c,
                    ),
        {
            let ghost index = it.index() as int;
            let ghost before = *self;
            assert(seed == all[index]);
            assert(airborne(all[index], width, start.height()));
            let mut seed: Plant = seed;
            let at: Pos = seed.get_pos();
            let drift: i32 = drifts[n];
            let column: i32 = wrap(at.x + drift, self.grid_size.x);
            if at.y > 0 {
                seed.set_pos(Pos { x: column, y: at.y - 1 });
                assert(seed == flown(all[index], drift as int, width));
                self.seeds.push(seed);
                proof {
                    assert forall|c: int| 0 <= c < width implies (
                    #[trigger] self.ground_buffer@[c])@ == start.ground_buffer@[c]@ + landed_in(
                        all,
                        drifts@,
                        width,
                        c,
                        (index + 1) as nat,
                    ) by {
                        assert(landed_in(all, drifts@, width, c, (index + 1) as nat) =~= landed_in(
                            all,
                            drifts@,
                            width,
                            c,
                            index as nat,
                        ));
                    }
                }
            } else {
                seed.set_pos(Pos { x: column, y: 0 });
                assert(seed == flown(all[index], drift as int, width));
                assert(grounded(seed, column as int));
                self.ground_buffer[column as usize].push(seed);
                proof {
                    assert(self.seeds@ =~= still_airborne(all, drifts@, width, (index + 1) as nat));
                    assert forall|c: int| 0 <= c < width implies (
                    #[trigger] self.ground_buffer@[c])@ == start.ground_buffer@[c]@ + landed_in(
                        all,
                        drifts@,
                        width,
                        c,
                        (index + 1) as nat,
                    ) by {
                        if c == column {
                            assert(self.ground_buffer@[c]@ =~= start.ground_buffer@[c]@
                                + landed_in(all, drifts@, width, c, (index + 1) as nat));
                        } else {
                            assert(self.ground_buffer@[c] == before.ground_buffer@[c]);
                            assert(landed_in(all, drifts@, width, c, (index + 1) as nat)
                                =~= landed_in(all, drifts@, width, c, index as nat));
                        }
                    }
                    assert forall|c: int, k: int|
                        0 <= c < width && 0 <= k < self.ground_buffer@[c]@.len() implies grounded(
                        #[trigger] self.ground_buffer@[c]@[k],
                        c,
                    ) by {
                        if c == column {
                            if k < before.ground_buffer@[c]@.len() {
                                assert(self.ground_buffer@[c]@[k] == before.ground_buffer@[c]@[k]);
                            }
                        } else {
                            assert(self.ground_buffer@[c] == before.ground_buffer@[c]);
                        }
                    }
                }
            }
            n += 1;
        }
    }

    /// Draws one drift per seed in the air: a column to the left, none, or
    /// a column to the right.
    pub fn draw_drifts(count: usize) -> (drifts: Vec<i32>)
        ensures
            drifts@.len() == count,
            forall|k: int| 0 <= k < count ==> -1 <= #[trigger] drifts@[k] <= 1,
    {
        let mut drifts: Vec<i32> = Vec::with_capacity(count);
        let mut k: usize = 0;
        while k < count
            invariant
                k <= count,
                drifts@.len() == k,
                forall|m: int| 0 <= m < k ==> -1 <= #[trigger] drifts@[m] <= 1,
            decreases count - k,
        {
            let step: usize = pick_index(3);
            drifts.push(step as i32 - 1);
            k += 1;
        }
        drifts
    }

    /// Lets every seed in the air fall by one row while it drifts by at
    /// most one column to either side. A seed that would fall below the
    /// ground lands on the ground of the column it drifted to and waits
    /// there in that column's buffer.
    pub fn update_seeds(&mut self)
        requires
            old(self).inv(),
        ensures
            final(self).inv(),
            seeds_flew(*old(self), *final(self)),
    {
        let drifts: Vec<i32> = Habitat::draw_drifts(self.seeds.len());
        self.fly_seeds(&drifts);
    }

    /// Whether a seed germinates in the given column in this tick: the
    /// ground cell of the column is empty and a seed is waiting there.
    pub open spec fn germinates(&self, column: int) -> bool {
        self.cell_at(Pos { x: column as i32, y: 0 }) is Empty && self.ground_buffer@[column]@.len()
            > 0
    }

    /// The seed that germinates in the given column, if one does.
    pub open spec fn sprout(&self, column: int) -> Plant {
        let buffer = self.ground_buffer@[column]@;
        buffer[strongest_of_first(buffer, buffer.len())]
    }

    /// The seeds that keep waiting in the given column: all but the one
    /// that germinates.
    pub open spec fn waiting(&self, column: int) -> Seq<Plant> {
        let buffer = self.ground_buffer@[column]@;
        if self.germinates(column) {
            buffer.remove(strongest_of_first(buffer, buffer.len()))
        } else {
            buffer
        }
    }

    /// The columns among the first `count` in which a seed germinates.
    pub open spec fn germinating_in_first(&self, count: nat) -> Seq<int>
        decreases count,
    {
        if count == 0 {
            Seq::empty()
        } else {
            self.germinating_in_first((count - 1) as nat) + if self.germinates(count - 1) {
                seq![count - 1]
            } else {
                Seq::empty()
            }
        }
    }

    /// Finds the seed of a buffer that germinates first: the one with the
    /// most energy.
    pub fn strongest_seed(buffer: &Vec<Plant>) -> (index: usize)
        requires
            buffer@.len() > 0,
        ensures
            index == strongest_of_first(buffer@, buffer@.len()),
            index < buffer@.len(),
            forall|k: int|
                0 <= k < buffer@.len() ==> (#[trigger] buffer@[k]).energy
                    <= buffer@[index as int].energy,
    {
        let mut best: usize = 0;
        let mut k: usize = 1;
        while k < buffer.len()
            invariant
                1 <= k <= buffer@.len(),
                best == strongest_of_first(buffer@, k as nat),
                best < k,
            decreases buffer@.len() - k,
        {
            if buffer[k].get_energy() >= buffer[best].get_energy() {
                best = k;
            }
            k += 1;
        }
        proof {
            lemma_strongest_is_maximal(buffer@, buffer@.len());
        }
        best
    }

    /// Settles one column of the ground. If the ground cell is empty and
    /// seeds are waiting, the strongest takes root and joins the living.
    /// Every other seed of the column pays the drain and is dropped unless
    /// energy is left.
    pub fn germinate_column(&mut self, column: usize)
        requires
            old(self).inv(),
            column < old(self).width(),
        ensures
            final(self).inv(),
            *final(self) == (Habitat {
                plants: final(self).plants,
                ground_buffer: final(self).ground_buffer,
                ..*old(self)
            }),
            final(self).ground_buffer@.len() == old(self).ground_buffer@.len(),
            forall|c: int|
                0 <= c < old(self).width() && c != column
                    ==> #[trigger] final(self).ground_buffer@[c] == old(self).ground_buffer@[c],
            final(self).ground_buffer@[column as int]@ == survivors_of_first(
                old(self).waiting(column as int),
                old(self).config.seed_energy_drain,
                old(self).waiting(column as int).len(),
            ),
            old(self).germinates(column as int) ==> {
                &&& final(self).plants@.len() == old(self).plants@.len() + 1
                &&& final(self).plants@.drop_last() == old(self).plants@
                &&& germinated_from(old(self).sprout(column as int), final(self).plants@.last())
                &&& freshly_rooted(final(self).plants@.last())
            },
            !old(self).germinates(column as int) ==> final(self).plants@ == old(self).plants@,
    {
        let ghost start = *self;
        let ghost width = self.width();
        let ghost height = self.height();
        let ground: Pos = Pos { x: column as i32, y: 0 };
        let free: bool = match self.get_cell_at(ground) {
            CellType::Empty => true,
            _ => false,
        };
        let mut rest: Vec<Plant> = Vec::new();
        core::mem::swap(&mut self.ground_buffer[column], &mut rest);
        let ghost buffer = rest@;
        assert(buffer == start.ground_buffer@[column as int]@);
        assert forall|k: int| 0 <= k < buffer.len() implies grounded(
            #[trigger] buffer[k],
            column as int,
        ) by {
            assert(grounded(start.ground_buffer@[column as int]@[k], column as int));
        }
        if free && rest.len() > 0 {
            let index: usize = Habitat::strongest_seed(&rest);
            let mut plant: Plant = rest.remove(index);
            assert(grounded(buffer[index as int], column as int));
            plant.create_root();
            proof {
                assert(germinated_from(start.sprout(column as int), plant));
                assert(plant.cells@ =~= seq![PlantCell::root_spec(plant.pos)]);
                assert forall|j: int| 0 <= j < plant.cells@.len() implies ownable(
                    #[trigger] plant.cells@[j],
                ) && plant.cells@[j].pos.in_grid(width, height) by {}
                assert(living(plant, width, height));
            }
            let ghost before = self.plants@;
            self.plants.push(plant);
            assert(self.plants@.drop_last() =~= before);
        }
        let ghost waiting = rest@;
        assert(waiting == start.waiting(column as int));
        let drain: i64 = self.config.seed_energy_drain;
        let ghost plants_now = self.plants@;
        for seed in it: rest
            invariant
                it.seq() == waiting,
                start.inv(),
                width == start.width(),
                height == start.height(),
                column < width,
                drain == start.config.seed_energy_drain,
                forall|k: int|
                    0 <= k < waiting.len() ==> grounded(#[trigger] waiting[k], column as int),
                *self == (Habitat {
                    plants: self.plants,
                    ground_buffer: self.ground_buffer,
                    ..start
                }),
                self.plants@ == plants_now,
                self.ground_buffer@.len() == width,
                forall|c: int|
                    0 <= c < width && c != column ==> #[trigger] self.ground_buffer@[c]
                        == start.ground_buffer@[c],
                self.ground_buffer@[column as int]@ == survivors_of_first(
                    waiting,
                    drain,
                    it.index() as nat,
                ),
                forall|k: int|
                    0 <= k < self.ground_buffer@[column as int]@.len() ==> grounded(
                        #[trigger] self.ground_buffer@[column as int]@[k],
                        column as int,
                    ),
        {
            let ghost index = it.index() as int;
            let ghost before = self.ground_buffer@[column as int]@;
            assert(seed == waiting[index]);
            assert(grounded(waiting[index], column as int));
            let mut seed: Plant = seed;
            seed.give_energy(-drain);
            if seed.has_energy() {
                assert(seed == (Plant {
                    energy: saturated(waiting[index].energy - drain),
                    ..waiting[index]
                }));
                self.ground_buffer[column].push(seed);
                proof {
                    assert(self.ground_buffer@[column as int]@ =~= survivors_of_first(
                        waiting,
                        drain,
                        (index + 1) as nat,
                    ));
                    assert forall|k: int|
                        0 <= k < self.ground_buffer@[column as int]@.len() implies grounded(
                        #[trigger] self.ground_buffer@[column as int]@[k],
                        column as int,
                    ) by {
                        if k < before.len() {
                            assert(self.ground_buffer@[column as int]@[k] == before[k]);
                        }
                    }
                }
            } else {
                assert(self.ground_buffer@[column as int]@ =~= survivors_of_first(
                    waiting,
                    drain,
                    (index + 1) as nat,
                ));
            }
        }
        proof {
            assert forall|i: int| 0 <= i < self.plants@.len() implies living(
                #[trigger] self.plants@[i],
                width,
                height,
            ) by {
                if i < start.plants@.len() {
                    assert(self.plants@[i] == start.plants@[i]);
                }
            }
            assert forall|c: int, k: int|
                0 <= c < width && 0 <= k < self.ground_buffer@[c]@.len() implies grounded(
                #[trigger] self.ground_buffer@[c]@[k],
                c,
            ) by {
                if c != column {
                    assert(self.ground_buffer@[c] == start.ground_buffer@[c]);
                }
            }
        }
    }

    /// Settles the ground. In every column whose ground cell is empty and
    /// whose buffer holds seeds, the seed with the most energy germinates:
    /// it leaves the buffer, takes root and joins the living, column by
    /// column. Every seed that stays behind loses the drain, and those left
    /// without energy are dropped.
    pub fn update_grounded_buffer(&mut self)
        requires
            old(self).inv(),
        ensures
            final(self).inv(),
            ground_settled(*old(self), *final(self)),
    {
        let ghost start = *self;
        let ghost width = self.width();
        let mut ix: usize = 0;
        while ix < self.grid_size.x as usize
            invariant
                start == *old(self),
                start.inv(),
                self.inv(),
                width == start.width(),
                ix <= width,
                *self == (Habitat {
                    plants: self.plants,
                    ground_buffer: self.ground_buffer,
                    ..start
                }),
                forall|c: int|
                    0 <= c < ix ==> (#[trigger] self.ground_buffer@[c])@ == survivors_of_first(
                        start.waiting(c),
                        start.config.seed_energy_drain,
                        start.waiting(c).len(),
                    ),
                forall|c: int|
                    ix <= c < width ==> #[trigger] self.ground_buffer@[c]
                        == start.ground_buffer@[c],
                self.plants@.len() == start.plants@.len() + start.germinating_in_first(
                    ix as nat,
                ).len(),
                forall|k: int|
                    0 <= k < start.plants@.len() ==> #[trigger] self.plants@[k]
                        == start.plants@[k],
                forall|k: int|
                    0 <= k < start.germinating_in_first(ix as nat).len() ==> germinated_from(
                        start.sprout(start.germinating_in_first(ix as nat)[k]),
                        #[trigger] self.plants@[start.plants@.len() + k],
                    ),
                forall|k: int|
                    start.plants@.len() <= k < self.plants@.len() ==> freshly_rooted(
                        #[trigger] self.plants@[k],
                    ),
            decreases width - ix,
        {
            let ghost before = *self;
            let ghost earlier = start.germinating_in_first(ix as nat);
            assert(before.germinates(ix as int) == start.germinates(ix as int));
            assert(before.waiting(ix as int) == start.waiting(ix as int));
            assert(before.sprout(ix as int) == start.sprout(ix as int));
            self.germinate_column(ix);
            proof {
                let later = start.germinating_in_first((ix + 1) as nat);
                assert forall|k: int|
                    0 <= k < start.plants@.len() implies #[trigger] self.plants@[k]
                    == start.plants@[k] by {
                    if start.germinates(ix as int) {
                        assert(self.plants@.drop_last()[k] == before.plants@[k]);
                    }
                }
                assert forall|k: int|
                    start.plants@.len() <= k < self.plants@.len() implies freshly_rooted(
                    #[trigger] self.plants@[k],
                ) by {
                    if start.germinates(ix as int) {
                        if k < before.plants@.len() {
                            assert(self.plants@.drop_last()[k] == before.plants@[k]);
                        } else {
                            assert(self.plants@.last() == self.plants@[k]);
                        }
                    }
                }
                assert forall|k: int| 0 <= k < later.len() implies germinated_from(
                    start.sprout(later[k]),
                    #[trigger] self.plants@[start.plants@.len() + k],
                ) by {
                    if k < earlier.len() {
                        assert(later[k] == earlier[k]);
                        if start.germinates(ix as int) {
                            assert(self.plants@.drop_last()[start.plants@.len() + k]
                                == before.plants@[start.plants@.len() + k]);
                        }
                    } else {
                        assert(later[k] == ix);
                        assert(self.plants@.last() == self.plants@[start.plants@.len() + k]);
                    }
                }
            }
            ix += 1;
        }
    }

    /// Shows every seed in the air on the grid. This is for display: the
    /// only effect on the next tick is that growth finds these cells taken.
    pub fn show_seeds(&mut self)
        requires
            old(self).inv(),
        ensures
            final(self).inv(),
            seeds_shown(*old(self), *final(self)),
    {
        let mut ix: usize = 0;
        while ix < self.seeds.len()
            invariant
                ix <= self.seeds@.len(),
                self.inv(),
                *self == (Habitat { cell_map: self.cell_map, ..*old(self) }),
                forall|pos: Pos|
                    pos.in_grid(self.width(), self.height()) ==> #[trigger] self.cell_at(pos)
                        == if seed_at(self.seeds@.take(ix as int), pos) {
                        CellType::Seed
                    } else {
                        old(self).cell_at(pos)
                    },
            decreases self.seeds@.len() - ix,
        {
            let pos: Pos = self.seeds[ix].get_pos();
            let ghost before = *self;
            let ghost done = self.seeds@.take(ix as int);
            let ghost next = self.seeds@.take(ix + 1);
            assert(airborne(self.seeds@[ix as int], self.width(), self.height()));
            self.set_cell(pos, CellType::Seed);
            proof {
                vstd::arithmetic::div_mod::lemma_small_mod(pos.x as nat, self.width() as nat);
                assert(next[ix as int].pos == pos);
                assert forall|other: Pos|
                    other.in_grid(self.width(), self.height()) implies #[trigger] self.cell_at(
                    other,
                ) == if seed_at(next, other) {
                    CellType::Seed
                } else {
                    old(self).cell_at(other)
                } by {
                    if other == pos {
                    } else {
                        assert(self.cell_at(other) == before.cell_at(other));
                        if seed_at(next, other) {
                            let k = choose|k: int|
                                0 <= k < next.len() && (#[trigger] next[k]).pos == other;
                            assert(done[k].pos == other);
                        }
                        if seed_at(done, other) {
                            let k = choose|k: int|
                                0 <= k < done.len() && (#[trigger] done[k]).pos == other;
                            assert(next[k].pos == other);
                        }
                    }
                }
            }
            ix += 1;
        }
        assert(self.seeds@.take(self.seeds@.len() as int) =~= self.seeds@);
    }
}

} // verus!
