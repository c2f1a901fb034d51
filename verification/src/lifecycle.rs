//! The phases of a tick that settle accounts: energy from the sun, death
//! and the release of seeds, and the decay of the remains.

use vstd::prelude::*;
use crate::cell_types::CellType;
use crate::chance::happens;
use crate::config::{Config, ENERGY_PARAMETER_LIMIT};
use crate::energy::{saturate, saturated};
use crate::habitat::{airborne, cell_in, living, Habitat};
use crate::plant::Plant;
use crate::position::Pos;
use crate::ratio::{lemma_product_bounded, Ratio, UNIT};

verus! {

/// The energy a plant gains from one owned cell: for a leaf that shows in
/// the grid, the sun power times the light the grid records for it; for
/// anything else, nothing.
pub open spec fn leaf_harvest(owned: CellType, shown: CellType, sun_power: i64) -> int {
    match (owned, shown) {
        (CellType::Leaf { .. }, CellType::Leaf { sun_absorbed }) => sun_power * sun_absorbed
            / UNIT as int,
        _ => 0,
    }
}

/// The energy a plant gains from its first `count` cells.
pub open spec fn harvest_of_first(
    cell_map: Seq<Vec<CellType>>,
    width: int,
    height: int,
    sun_power: i64,
    plant: Plant,
    count: nat,
) -> int
    decreases count,
{
    if count == 0 {
        0
    } else {
        harvest_of_first(cell_map, width, height, sun_power, plant, (count - 1) as nat)
            + leaf_harvest(
            plant.cells@[count - 1].cell_type,
            cell_in(cell_map, width, height, plant.cells@[count - 1].pos),
            sun_power,
        )
    }
}

/// The positions of the cells of a plant, in the order they were grown.
pub open spec fn cell_positions(plant: Plant) -> Seq<Pos> {
    Seq::new(plant.cells@.len(), |j: int| plant.cells@[j].pos)
}

/// The positions that the dead among the first `count` plants leave
/// behind, plant by plant.
pub open spec fn remains_of_first(plants: Seq<Plant>, count: nat) -> Seq<Pos>
    decreases count,
{
    if count == 0 {
        Seq::empty()
    } else {
        remains_of_first(plants, (count - 1) as nat) + if plants[count - 1].is_dead_spec() {
            cell_positions(plants[count - 1])
        } else {
            Seq::empty()
        }
    }
}

/// Whether `seed` is what `parent` releases at `pos`: a seed without cells
/// and of age zero, endowed by the parent's age, with a genome mutated from
/// the parent's and rules decoded from that genome.
pub open spec fn released_by(parent: Plant, pos: Pos, seed: Plant, config: Config) -> bool {
    &&& seed.pos == pos
    &&& !seed.has_root
    &&& seed.cells@.len() == 0
    &&& seed.lifetime == 0
    &&& seed.energy == parent.bequest_spec(config)
    &&& seed.genome@.data.len() == parent.genome@.data.len()
    &&& (config.mutation_rate.is_zero() ==> seed.genome@.data == parent.genome@.data)
    &&& seed.phenotype_matches_genome(config)
}

/// For each of the positions that the dead among the first `count` plants
/// leave behind, the index of the plant that leaves it.
pub open spec fn owners_of_first(plants: Seq<Plant>, count: nat) -> Seq<usize>
    decreases count,
{
    if count == 0 {
        Seq::empty()
    } else {
        owners_of_first(plants, (count - 1) as nat) + if plants[count - 1].is_dead_spec() {
            Seq::new(plants[count - 1].cells@.len(), |j: int| (count - 1) as usize)
        } else {
            Seq::empty()
        }
    }
}

/// Whether `seeds` are the seeds released at the first `count` of the
/// given places: one for every marked place and none for any other, in the
/// order of the places, each released by the plant that owns the place.
pub open spec fn released_at_first(
    plants: Seq<Plant>,
    places: Seq<Pos>,
    owners: Seq<usize>,
    marks: Seq<bool>,
    config: Config,
    seeds: Seq<Plant>,
    count: nat,
) -> bool
    decreases count,
{
    if count == 0 {
        seeds.len() == 0
    } else if marks[count - 1] {
        &&& seeds.len() > 0
        &&& released_by(plants[owners[count - 1] as int], places[count - 1], seeds.last(), config)
        &&& released_at_first(
            plants,
            places,
            owners,
            marks,
            config,
            seeds.drop_last(),
            (count - 1) as nat,
        )
    } else {
        released_at_first(plants, places, owners, marks, config, seeds, (count - 1) as nat)
    }
}

/// Whether the marks are a draw of the given rate: anything goes, but a
/// rate of one marks everything and a rate of zero marks nothing.
pub open spec fn drawn_at(marks: Seq<bool>, rate: Ratio) -> bool {
    &&& rate.is_one() ==> forall|k: int| 0 <= k < marks.len() ==> marks[k]
    &&& rate.is_zero() ==> forall|k: int| 0 <= k < marks.len() ==> !marks[k]
}

/// Whether the seeds that joined the air between `pre` and `post` are the
/// ones that the dead of `pre` release where the marks fall.
pub open spec fn released_by_marks(pre: Habitat, post: Habitat, marks: Seq<bool>) -> bool {
    let places = remains_of_first(pre.plants@, pre.plants@.len());
    &&& marks.len() == places.len()
    &&& drawn_at(marks, pre.config.seed_spawn_rate)
    &&& released_at_first(
        pre.plants@,
        places,
        owners_of_first(pre.plants@, pre.plants@.len()),
        marks,
        pre.config,
        post.seeds@.skip(pre.seeds@.len() as int),
        places.len(),
    )
}

/// Every place that the dead leave behind has an owner: a dead plant among
/// those counted, one of whose cells stands on the place.
pub proof fn lemma_owners(plants: Seq<Plant>, count: nat)
    requires
        count <= plants.len(),
        count <= usize::MAX,
    ensures
        owners_of_first(plants, count).len() == remains_of_first(plants, count).len(),
        forall|k: int|
            0 <= k < owners_of_first(plants, count).len() ==> {
                let owner = #[trigger] owners_of_first(plants, count)[k];
                &&& owner < count
                &&& plants[owner as int].is_dead_spec()
                &&& exists|j: int|
                    0 <= j < plants[owner as int].cells@.len() && (
                    #[trigger] plants[owner as int].cells@[j]).pos == remains_of_first(
                        plants,
                        count,
                    )[k]
            },
    decreases count,
{
    if count > 0 {
        let before = (count - 1) as nat;
        lemma_owners(plants, before);
        let owners = owners_of_first(plants, count);
        let places = remains_of_first(plants, count);
        let earlier = owners_of_first(plants, before);
        assert forall|k: int| 0 <= k < owners.len() implies {
            let owner = #[trigger] owners[k];
            &&& owner < count
            &&& plants[owner as int].is_dead_spec()
            &&& exists|j: int|
                0 <= j < plants[owner as int].cells@.len() && (
                #[trigger] plants[owner as int].cells@[j]).pos == places[k]
        } by {
            if k < earlier.len() {
                assert(owners[k] == earlier[k]);
                assert(places[k] == remains_of_first(plants, before)[k]);
            } else {
                let j = k - earlier.len();
                assert(owners[k] == before);
                assert(plants[before as int].cells@[j].pos == places[k]);
            }
        }
    }
}

/// The number of released seeds is the number of marks that fall on the
/// first `count` places: none where nothing is marked, one per place where
/// everything is, and never more than there are places.
pub proof fn lemma_release_count(
    plants: Seq<Plant>,
    places: Seq<Pos>,
    owners: Seq<usize>,
    marks: Seq<bool>,
    config: Config,
    seeds: Seq<Plant>,
    count: nat,
)
    requires
        count <= marks.len(),
        released_at_first(plants, places, owners, marks, config, seeds, count),
    ensures
        seeds.len() <= count,
        (forall|k: int| 0 <= k < count ==> marks[k]) ==> seeds.len() == count,
        (forall|k: int| 0 <= k < count ==> !marks[k]) ==> seeds.len() == 0,
    decreases count,
{
    if count > 0 {
        if marks[count - 1] {
            lemma_release_count(
                plants,
                places,
                owners,
                marks,
                config,
                seeds.drop_last(),
                (count - 1) as nat,
            );
        } else {
            lemma_release_count(plants, places, owners, marks, config, seeds, (count - 1) as nat);
        }
    }
}

/// The test a plant must pass to stay among the living.
pub open spec fn alive_pred() -> spec_fn(Plant) -> bool {
    |plant: Plant| !plant.is_dead_spec()
}

/// The positions that remain when every marked one is removed.
pub open spec fn unmarked(cells: Seq<Pos>, marks: Seq<bool>) -> Seq<Pos>
    decreases cells.len(),
{
    if cells.len() == 0 {
        cells
    } else {
        let rest = unmarked(cells.drop_last(), marks.drop_last());
        if marks.last() {
            rest
        } else {
            rest.push(cells.last())
        }
    }
}

/// Where nothing is marked, everything remains; where everything is
/// marked, nothing remains; and what remains is never more than there was.
pub proof fn lemma_unmarked_bounds(cells: Seq<Pos>, marks: Seq<bool>)
    requires
        marks.len() == cells.len(),
    ensures
        unmarked(cells, marks).len() <= cells.len(),
        (forall|k: int| 0 <= k < marks.len() ==> !marks[k]) ==> unmarked(cells, marks) == cells,
        (forall|k: int| 0 <= k < marks.len() ==> marks[k]) ==> unmarked(cells, marks).len() == 0,
        forall|k: int|
            0 <= k < unmarked(cells, marks).len() ==> cells.contains(
                #[trigger] unmarked(cells, marks)[k],
            ),
    decreases cells.len(),
{
    if cells.len() > 0 {
        lemma_unmarked_bounds(cells.drop_last(), marks.drop_last());
        let rest = unmarked(cells.drop_last(), marks.drop_last());
        if forall|k: int| 0 <= k < marks.len() ==> !marks[k] {
            assert forall|k: int| 0 <= k < marks.drop_last().len() implies !marks.drop_last()[k]
            by {
                assert(marks.drop_last()[k] == marks[k]);
            }
            assert(!marks.last());
            assert(cells.drop_last().push(cells.last()) =~= cells);
        }
        if forall|k: int| 0 <= k < marks.len() ==> marks[k] {
            assert forall|k: int| 0 <= k < marks.drop_last().len() implies marks.drop_last()[k] by {
                assert(marks.drop_last()[k] == marks[k]);
            }
            assert(marks.last());
        }
        assert forall|k: int| 0 <= k < unmarked(cells, marks).len() implies cells.contains(
            #[trigger] unmarked(cells, marks)[k],
        ) by {
            if k < rest.len() {
                assert(cells.drop_last().contains(rest[k]));
                let m = choose|m: int|
                    0 <= m < cells.drop_last().len() && cells.drop_last()[m] == rest[k];
                assert(cells[m] == rest[k]);
            } else {
                assert(cells[cells.len() - 1] == cells.last());
            }
        }
    }
}

/// Energy is settled: every living plant has gained the harvest of its
/// leaves and paid the upkeep of its cells, and nothing else has changed.
pub open spec fn energy_settled(pre: Habitat, post: Habitat) -> bool {
    &&& post == (Habitat { plants: post.plants, ..pre })
    &&& post.plants@.len() == pre.plants@.len()
    &&& forall|i: int|
        0 <= i < pre.plants@.len() ==> #[trigger] post.plants@[i] == (Plant {
            energy: pre.settled(pre.plants@[i]),
            ..pre.plants@[i]
        })
}

/// The dead are removed: the living are those that were not dead, in
/// their order; the positions of the cells of the dead have joined the
/// remains; and the seeds that the dead released have joined the seeds in
/// the air, one for every cell of a dead plant on which a mark of the seed
/// rate fell.
pub open spec fn dead_removed(pre: Habitat, post: Habitat) -> bool {
    &&& post == (Habitat {
        plants: post.plants,
        seeds: post.seeds,
        dead_cells: post.dead_cells,
        ..pre
    })
    &&& post.plants@ == pre.plants@.filter(alive_pred())
    &&& post.dead_cells@ == pre.dead_cells@ + remains_of_first(pre.plants@, pre.plants@.len())
    &&& pre.seeds@.len() <= post.seeds@.len()
    &&& post.seeds@.take(pre.seeds@.len() as int) == pre.seeds@
    &&& exists|marks: Seq<bool>| #[trigger] released_by_marks(pre, post, marks)
}

/// The remains have decayed: some of the recorded positions are gone,
/// the others keep their order, and nothing else has changed.
pub open spec fn remains_decayed(pre: Habitat, post: Habitat) -> bool {
    &&& post == (Habitat { dead_cells: post.dead_cells, ..pre })
    &&& exists|marks: Seq<bool>|
        marks.len() == pre.dead_cells@.len() && drawn_at(
            marks,
            pre.config.dead_cell_remove_rate,
        ) && post.dead_cells@ == #[trigger] unmarked(pre.dead_cells@, marks)
    &&& pre.config.dead_cell_remove_rate.is_one() ==> post.dead_cells@.len() == 0
    &&& pre.config.dead_cell_remove_rate.is_zero() ==> post.dead_cells@ == pre.dead_cells@
}

impl Habitat {
    /// The balance of a plant after the energy settlement: what it had,
    /// plus the harvest of its leaves, minus the upkeep of all its cells.
    pub open spec fn settled(&self, plant: Plant) -> i64 {
        saturated(
            plant.energy + harvest_of_first(
                self.cell_map@,
                self.width(),
                self.height(),
                self.config.sun_power,
                plant,
                plant.cells@.len(),
            ) - self.config.cell_sustain_energy_cost * plant.cells@.len(),
        )
    }

    /// Adds up what the leaves of a plant have caught according to the
    /// grid.
    pub fn collected_energy(&self, plant: &Plant) -> (collected: i128)
        requires
            self.inv(),
            living(*plant, self.width(), self.height()),
        ensures
            collected == harvest_of_first(
                self.cell_map@,
                self.width(),
                self.height(),
                self.config.sun_power,
                *plant,
                plant.cells@.len(),
            ),
            0 <= collected <= plant.cells@.len() * ENERGY_PARAMETER_LIMIT,
    {
        let mut collected: i128 = 0;
        let mut j: usize = 0;
        while j < plant.cells.len()
            invariant
                self.inv(),
                living(*plant, self.width(), self.height()),
                j <= plant.cells@.len(),
                collected == harvest_of_first(
                    self.cell_map@,
                    self.width(),
                    self.height(),
                    self.config.sun_power,
                    *plant,
                    j as nat,
                ),
                0 <= collected <= j * ENERGY_PARAMETER_LIMIT,
            decreases plant.cells@.len() - j,
        {
            let pos: Pos = plant.cells[j].get_pos();
            assert(plant.cells@[j as int].pos.in_grid(self.width(), self.height()));
            match plant.cells[j].get_cell_type() {
                CellType::Leaf { .. } => {
                    match self.get_cell_at(pos) {
                        CellType::Leaf { sun_absorbed } => {
                            proof {
                                lemma_product_bounded(
                                    self.config.sun_power as int,
                                    *sun_absorbed as int,
                                    ENERGY_PARAMETER_LIMIT as int,
                                    UNIT as int,
                                );
                            }
                            let gain: i128 = (self.config.sun_power as i128) * (
                            *sun_absorbed as i128) / (UNIT as i128);
                            collected = collected + gain;
                        },
                        _ => {},
                    }
                },
                _ => {},
            }
            j += 1;
        }
        collected
    }

    /// Settles the energy of every living plant: each gains what its leaves
    /// caught in the sunlight pass and pays the upkeep of all its cells.
    pub fn supply_plant_energy(&mut self)
        requires
            old(self).inv(),
        ensures
            final(self).inv(),
            energy_settled(*old(self), *final(self)),
    {
        let mut idx: usize = 0;
        while idx < self.plants.len()
            invariant
                self.inv(),
                old(self).inv(),
                *self == (Habitat { plants: self.plants, ..*old(self) }),
                idx <= self.plants@.len(),
                self.plants@.len() == old(self).plants@.len(),
                forall|i: int|
                    0 <= i < idx ==> #[trigger] self.plants@[i] == (Plant {
                        energy: old(self).settled(old(self).plants@[i]),
                        ..old(self).plants@[i]
                    }),
                forall|i: int|
                    idx <= i < self.plants@.len() ==> #[trigger] self.plants@[i]
                        == old(self).plants@[i],
            decreases self.plants@.len() - idx,
        {
            assert(living(self.plants@[idx as int], self.width(), self.height()));
            let collected: i128 = self.collected_energy(&self.plants[idx]);
            let count: usize = self.plants[idx].cells.len();
            proof {
                lemma_product_bounded(
                    self.config.cell_sustain_energy_cost as int,
                    count as int,
                    ENERGY_PARAMETER_LIMIT as int,
                    usize::MAX as int,
                );
                lemma_product_bounded(
                    count as int,
                    ENERGY_PARAMETER_LIMIT as int,
                    usize::MAX as int,
                    ENERGY_PARAMETER_LIMIT as int,
                );
            }
            let energy_cost: i128 = (self.config.cell_sustain_energy_cost as i128) * (
            count as i128);
            let balance: i128 = (self.plants[idx].energy as i128) + collected - energy_cost;
            self.plants[idx].energy = saturate(balance);
            idx += 1;
        }
    }

    /// Lists what the dead among the living leave behind: the positions
    /// of their cells, plant by plant, and for each position the index of
    /// the plant that owned it.
    pub fn remains_of_dead(&self) -> (left: (Vec<Pos>, Vec<usize>))
        requires
            self.inv(),
        ensures
            left.0@ == remains_of_first(self.plants@, self.plants@.len()),
            left.1@ == owners_of_first(self.plants@, self.plants@.len()),
    {
        let mut places: Vec<Pos> = Vec::new();
        let mut owners: Vec<usize> = Vec::new();
        let mut ix: usize = 0;
        while ix < self.plants.len()
            invariant
                ix <= self.plants@.len(),
                places@ == remains_of_first(self.plants@, ix as nat),
                owners@ == owners_of_first(self.plants@, ix as nat),
            decreases self.plants@.len() - ix,
        {
            let ghost earlier_places = places@;
            let ghost earlier_owners = owners@;
            let plant: &Plant = &self.plants[ix];
            if plant.is_dead() {
                let ghost own = cell_positions(*plant);
                let ghost mine = Seq::new(plant.cells@.len(), |j: int| ix);
                let mut cell_ix: usize = 0;
                while cell_ix < plant.cells.len()
                    invariant
                        cell_ix <= plant.cells@.len(),
                        own == cell_positions(*plant),
                        mine == Seq::new(plant.cells@.len(), |j: int| ix),
                        places@ == earlier_places + own.take(cell_ix as int),
                        owners@ == earlier_owners + mine.take(cell_ix as int),
                    decreases plant.cells@.len() - cell_ix,
                {
                    places.push(plant.cells[cell_ix].get_pos());
                    owners.push(ix);
                    cell_ix += 1;
                }
                assert(own.take(own.len() as int) =~= own);
                assert(mine.take(mine.len() as int) =~= mine);
            }
            ix += 1;
        }
        (places, owners)
    }

    /// Releases the seeds of the dead: for every marked place, the plant
    /// that owns the place releases one seed there, in the order of the
    /// places.
    pub fn release_seeds(&mut self, places: &Vec<Pos>, owners: &Vec<usize>, marks: &Vec<bool>)
        requires
            old(self).inv(),
            owners@.len() == places@.len(),
            marks@.len() == places@.len(),
            forall|k: int|
                0 <= k < owners@.len() ==> #[trigger] owners@[k] < old(self).plants@.len(),
            forall|k: int|
                0 <= k < places@.len() ==> (#[trigger] places@[k]).in_grid(
                    old(self).width(),
                    old(self).height(),
                ),
        ensures
            final(self).inv(),
            *final(self) == (Habitat { seeds: final(self).seeds, ..*old(self) }),
            old(self).seeds@.len() <= final(self).seeds@.len(),
            final(self).seeds@.take(old(self).seeds@.len() as int) == old(self).seeds@,
            released_at_first(
                old(self).plants@,
                places@,
                owners@,
                marks@,
                old(self).config,
                final(self).seeds@.skip(old(self).seeds@.len() as int),
                places@.len(),
            ),
    {
        let ghost start = old(self).seeds@.len() as int;
        let mut k: usize = 0;
        assert(self.seeds@.take(start) =~= self.seeds@);
        assert(self.seeds@.skip(start) =~= Seq::<Plant>::empty());
        while k < places.len()
            invariant
                self.inv(),
                *self == (Habitat { seeds: self.seeds, ..*old(self) }),
                start == old(self).seeds@.len(),
                k <= places@.len(),
                owners@.len() == places@.len(),
                marks@.len() == places@.len(),
                forall|m: int|
                    0 <= m < owners@.len() ==> #[trigger] owners@[m] < self.plants@.len(),
                forall|m: int|
                    0 <= m < places@.len() ==> (#[trigger] places@[m]).in_grid(
                        self.width(),
                        self.height(),
                    ),
                start <= self.seeds@.len(),
                self.seeds@.take(start) == old(self).seeds@,
                released_at_first(
                    self.plants@,
                    places@,
                    owners@,
                    marks@,
                    self.config,
                    self.seeds@.skip(start),
                    k as nat,
                ),
            decreases places@.len() - k,
        {
            if marks[k] {
                let owner: usize = owners[k];
                assert(living(self.plants@[owner as int], self.width(), self.height()));
                let ghost before = self.seeds@;
                let seed: Plant = self.plants[owner].new_offspring(places[k], &self.config);
                assert(airborne(seed, self.width(), self.height()));
                self.seeds.push(seed);
                proof {
                    assert(self.seeds@.take(start) =~= before.take(start));
                    assert(self.seeds@.skip(start).drop_last() =~= before.skip(start));
                    assert(self.seeds@.skip(start).last() == seed);
                }
            }
            k += 1;
        }
    }

    /// Removes the dead from the living. Every cell of a dead plant
    /// releases a seed with the configured probability, at the cell's
    /// position and descended from the dead plant; the positions of all its
    /// cells join the recorded remains.
    pub fn remove_dead(&mut self)
        requires
            old(self).inv(),
        ensures
            final(self).inv(),
            dead_removed(*old(self), *final(self)),
    {
        let ghost plants = self.plants@;
        let count: usize = self.plants.len();
        let (places, owners): (Vec<Pos>, Vec<usize>) = self.remains_of_dead();
        let marks: Vec<bool> = Habitat::draw_marks(places.len(), self.config.seed_spawn_rate);
        proof {
            lemma_owners(plants, plants.len());
            assert forall|k: int| 0 <= k < places@.len() implies (#[trigger] places@[k]).in_grid(
                self.width(),
                self.height(),
            ) by {
                let owner = owners@[k];
                assert(living(plants[owner as int], self.width(), self.height()));
            }
        }
        self.release_seeds(&places, &owners, &marks);
        let ghost released = *self;
        let mut places: Vec<Pos> = places;
        self.dead_cells.append(&mut places);
        assert(released_by_marks(*old(self), *self, marks@));
        let ghost mid = *self;
        let mut all: Vec<Plant> = Vec::new();
        core::mem::swap(&mut self.plants, &mut all);
        assert(all@ == plants);
        proof {
            assert(plants.take(0) =~= Seq::<Plant>::empty());
            assert(Seq::<Plant>::empty().filter(alive_pred()) =~= Seq::<Plant>::empty()) by {
                reveal(Seq::filter);
            }
        }
        for plant in it: all
            invariant
                it.seq() == plants,
                plants == old(self).plants@,
                forall|i: int|
                    0 <= i < plants.len() ==> living(
                        #[trigger] plants[i],
                        self.width(),
                        self.height(),
                    ),
                self.plants@ == plants.take(it.index() as int).filter(alive_pred()),
                forall|i: int|
                    0 <= i < self.plants@.len() ==> living(
                        #[trigger] self.plants@[i],
                        self.width(),
                        self.height(),
                    ),
                mid.inv(),
                *self == (Habitat { plants: self.plants, ..mid }),
        {
            let ghost index = it.index() as int;
            assert(plant == plants[index]);
            proof {
                plants.take(index).lemma_filter_push(plant, alive_pred());
                assert(plants.take(index + 1) =~= plants.take(index).push(plant));
            }
            if !plant.is_dead() {
                self.plants.push(plant);
            }
        }
        assert(plants.take(plants.len() as int) =~= plants);
        assert(released_by_marks(*old(self), *self, marks@));
    }

    /// Draws one mark per position, each with the given probability.
    pub fn draw_marks(count: usize, rate: Ratio) -> (marks: Vec<bool>)
        requires
            rate.wf(),
        ensures
            marks@.len() == count,
            drawn_at(marks@, rate),
    {
        let mut marks: Vec<bool> = Vec::with_capacity(count);
        let mut k: usize = 0;
        while k < count
            invariant
                rate.wf(),
                k <= count,
                marks@.len() == k,
                rate.is_one() ==> forall|m: int| 0 <= m < k ==> marks@[m],
                rate.is_zero() ==> forall|m: int| 0 <= m < k ==> !marks@[m],
            decreases count - k,
        {
            marks.push(happens(rate));
            k += 1;
        }
        marks
    }

    /// Keeps the positions that are not marked, in their order.
    pub fn remove_marked(cells: &Vec<Pos>, marks: &Vec<bool>) -> (kept: Vec<Pos>)
        requires
            marks@.len() == cells@.len(),
        ensures
            kept@ == unmarked(cells@, marks@),
    {
        let mut kept: Vec<Pos> = Vec::new();
        let mut k: usize = 0;
        assert(cells@.take(0) =~= Seq::<Pos>::empty());
        while k < cells.len()
            invariant
                marks@.len() == cells@.len(),
                k <= cells@.len(),
                kept@ == unmarked(cells@.take(k as int), marks@.take(k as int)),
            decreases cells@.len() - k,
        {
            proof {
                assert(cells@.take(k + 1).drop_last() =~= cells@.take(k as int));
                assert(marks@.take(k + 1).drop_last() =~= marks@.take(k as int));
            }
            if !marks[k] {
                kept.push(cells[k]);
            }
            k += 1;
        }
        assert(cells@.take(cells@.len() as int) =~= cells@);
        assert(marks@.take(marks@.len() as int) =~= marks@);
        kept
    }

    /// Lets the remains of the dead decay: every recorded position is
    /// removed with the configured probability, independently of the
    /// others, and the rest keep their order. With a probability of one
    /// nothing remains; with a probability of zero nothing is removed.
    pub fn decay_dead_cells(&mut self)
        requires
            old(self).inv(),
        ensures
            final(self).inv(),
            remains_decayed(*old(self), *final(self)),
    {
        let marks: Vec<bool> = Habitat::draw_marks(
            self.dead_cells.len(),
            self.config.dead_cell_remove_rate,
        );
        let kept: Vec<Pos> = Habitat::remove_marked(&self.dead_cells, &marks);
        proof {
            lemma_unmarked_bounds(self.dead_cells@, marks@);
            assert forall|k: int| 0 <= k < kept@.len() implies (#[trigger] kept@[k]).in_grid(
                self.width(),
                self.height(),
            ) by {
                assert(self.dead_cells@.contains(kept@[k]));
            }
        }
        self.dead_cells = kept;
    }
}

} // verus!
