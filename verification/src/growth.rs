//! The growth phase of a tick: every rooted plant proposes new cells, the
//! world strikes the proposals whose target is taken or out of bounds, and
//! chance picks among the rest.

use vstd::prelude::*;
use crate::cell_types::CellType;
use crate::chance::pick_index;
use crate::config::MAX_GROWTHS_PER_ITERATION;
use crate::energy::saturated;
use crate::habitat::{living, Habitat};
use crate::plant::{acceptable, Plant, Proposal};
use crate::plant_cell::{ownable, PlantCell};
use crate::position::{wrap, wrap_spec, Pos};

verus! {

/// A choice without replacement: as many proposals as may grow in one tick,
/// or all there are if there are fewer, each taken from the pool and none
/// taken more often than the pool holds it.
pub open spec fn is_selection(chosen: Seq<Proposal>, pool: Seq<Proposal>) -> bool {
    &&& chosen.len() == if pool.len() < MAX_GROWTHS_PER_ITERATION {
        pool.len()
    } else {
        MAX_GROWTHS_PER_ITERATION as nat
    }
    &&& chosen.to_multiset().subset_of(pool.to_multiset())
}

/// The balance after paying for the first `count` growths, one by one.
pub open spec fn energy_after(energy: i64, growths: Seq<Proposal>, count: nat) -> i64
    decreases count,
{
    if count == 0 {
        energy
    } else {
        saturated(energy_after(energy, growths, (count - 1) as nat) - growths[count - 1].3)
    }
}

/// The cell that a plant gains from a growth in a world `width` columns
/// wide: the proposed cell at the proposed position, its column folded onto
/// the ring.
pub open spec fn grown_cell(width: int, proposal: Proposal) -> PlantCell {
    PlantCell {
        pos: Pos { x: wrap_spec(proposal.0.x as int, width) as i32, y: proposal.0.y },
        cell_type: proposal.2,
        response_ix: proposal.1,
    }
}

/// Whether `grown` is `plant` after the given growths: the new cells are
/// appended in order, each is paid for, and nothing else changes.
pub open spec fn after_growths(width: int, plant: Plant, growths: Seq<Proposal>, grown: Plant)
    -> bool {
    &&& grown.cells@ == plant.cells@ + Seq::new(
        growths.len(),
        |k: int| grown_cell(width, growths[k]),
    )
    &&& grown.energy == energy_after(plant.energy, growths, growths.len())
    &&& grown.pos == plant.pos
    &&& grown.has_root == plant.has_root
    &&& grown.lifetime == plant.lifetime
    &&& grown.genome == plant.genome
    &&& grown.response_clusters == plant.response_clusters
}

/// Whether a growth can be applied in a world `height` rows tall: its
/// target row is inside the grid and its cell is fit to be owned.
pub open spec fn applicable(height: int, proposal: Proposal) -> bool {
    acceptable(proposal) && proposal.0.in_rows(height)
}

/// The given growths are applied: every plant has gained the cells of its
/// growths and paid for each, and nothing else has changed.
pub open spec fn growths_applied(pre: Habitat, post: Habitat, plant_growth: Seq<Seq<Proposal>>)
    -> bool {
    &&& post == (Habitat { plants: post.plants, ..pre })
    &&& post.plants@.len() == pre.plants@.len()
    &&& plant_growth.len() == pre.plants@.len()
    &&& forall|i: int|
        0 <= i < pre.plants@.len() ==> after_growths(
            pre.width(),
            pre.plants@[i],
            plant_growth[i],
            #[trigger] post.plants@[i],
        )
}

/// The growths of all plants as plain sequences.
pub open spec fn plant_growth_view(plant_growth: Seq<Vec<Proposal>>) -> Seq<Seq<Proposal>> {
    Seq::new(plant_growth.len(), |i: int| plant_growth[i]@)
}

/// The given growths are a fair draw: for every plant, a choice without
/// replacement among its candidates.
pub open spec fn growths_drawn(pre: Habitat, plant_growth: Seq<Seq<Proposal>>) -> bool {
    &&& plant_growth.len() == pre.plants@.len()
    &&& forall|i: int|
        0 <= i < pre.plants@.len() ==> is_selection(
            #[trigger] plant_growth[i],
            pre.candidates_spec(pre.plants@[i]),
        )
}

/// Whether `post` is `pre` after growths drawn from the candidates of
/// `pre` were applied.
pub open spec fn grew_by(pre: Habitat, post: Habitat, plant_growth: Seq<Seq<Proposal>>) -> bool {
    growths_drawn(pre, plant_growth) && growths_applied(pre, post, plant_growth)
}

/// The plants have grown: for some fair draw of growths, every rooted plant
/// has gained the cells of its growths and paid for each, and nothing else
/// has changed.
pub open spec fn grew(pre: Habitat, post: Habitat) -> bool {
    exists|plant_growth: Seq<Seq<Proposal>>| #[trigger] grew_by(pre, post, plant_growth)
}

impl Habitat {
    /// Whether the target of a proposal lies between ground and canopy and
    /// is empty in the grid as it stands.
    pub open spec fn target_free(&self, proposal: Proposal) -> bool {
        proposal.0.in_rows(self.height()) && self.cell_at(proposal.0) is Empty
    }

    /// The test that a proposal must pass to become a candidate.
    pub open spec fn free_target_pred(&self) -> spec_fn(Proposal) -> bool {
        |proposal: Proposal| self.target_free(proposal)
    }

    /// The proposals of a plant whose targets are free, in proposal order.
    pub open spec fn candidates_spec(&self, plant: Plant) -> Seq<Proposal> {
        plant.growth_proposals_spec(self.config).filter(self.free_target_pred())
    }

    /// Strikes from the proposals of a plant those whose target leaves the
    /// grid vertically or is not empty in the current grid.
    pub fn valid_candidates(&self, plant: &Plant) -> (candidates: Vec<Proposal>)
        requires
            self.inv(),
            plant.wf(),
        ensures
            candidates@ == self.candidates_spec(*plant),
            forall|k: int|
                0 <= k < candidates@.len() ==> applicable(self.height(), #[trigger] candidates@[k]),
    {
        let proposals: Vec<Proposal> = plant.create_growth_proposals(&self.config);
        let mut candidates: Vec<Proposal> = Vec::new();
        let mut i: usize = 0;
        assert(proposals@.take(0) =~= Seq::<Proposal>::empty());
        assert(Seq::<Proposal>::empty().filter(self.free_target_pred()) =~= Seq::<
            Proposal,
        >::empty()) by {
            reveal(Seq::filter);
        }
        while i < proposals.len()
            invariant
                self.inv(),
                i <= proposals@.len(),
                forall|j: int| 0 <= j < proposals@.len() ==> acceptable(#[trigger] proposals@[j]),
                candidates@ == proposals@.take(i as int).filter(self.free_target_pred()),
                forall|k: int|
                    0 <= k < candidates@.len() ==> applicable(
                        self.height(),
                        #[trigger] candidates@[k],
                    ),
            decreases proposals@.len() - i,
        {
            let proposal: Proposal = proposals[i];
            let mut free: bool = false;
            if self.is_in_y_bounds(proposal.0) {
                free =
                match self.get_cell_at(proposal.0) {
                    CellType::Empty => true,
                    _ => false,
                };
            }
            proof {
                proposals@.take(i as int).lemma_filter_push(proposal, self.free_target_pred());
                assert(proposals@.take(i + 1) =~= proposals@.take(i as int).push(proposal));
            }
            if free {
                candidates.push(proposal);
            }
            i += 1;
        }
        assert(proposals@.take(proposals@.len() as int) =~= proposals@);
        candidates
    }

    /// Draws up to the permitted number of growths from a pool of
    /// candidates, uniformly and without replacement.
    pub fn choose_growths(pool: Vec<Proposal>) -> (growths: Vec<Proposal>)
        ensures
            is_selection(growths@, pool@),
            forall|k: int| 0 <= k < growths@.len() ==> pool@.contains(#[trigger] growths@[k]),
    {
        let mut pool: Vec<Proposal> = pool;
        let ghost all = pool@;
        let mut growths: Vec<Proposal> = Vec::with_capacity(MAX_GROWTHS_PER_ITERATION);
        let mut round: usize = 0;
        proof {
            growths@.to_multiset_ensures();
            assert(growths@.to_multiset().len() == 0);
            assert(growths@.to_multiset().add(pool@.to_multiset()) =~= all.to_multiset());
        }
        while round < MAX_GROWTHS_PER_ITERATION
            invariant
                round <= MAX_GROWTHS_PER_ITERATION,
                growths@.to_multiset().add(pool@.to_multiset()) == all.to_multiset(),
                growths@.len() + pool@.len() == all.len(),
                growths@.len() == if all.len() < round {
                    all.len()
                } else {
                    round as nat
                },
                forall|k: int| 0 <= k < growths@.len() ==> all.contains(#[trigger] growths@[k]),
                forall|k: int| 0 <= k < pool@.len() ==> all.contains(#[trigger] pool@[k]),
            decreases MAX_GROWTHS_PER_ITERATION - round,
        {
            if pool.len() > 0 {
                let ghost before_pool = pool@;
                let ghost before_growths = growths@;
                let index: usize = pick_index(pool.len());
                let picked: Proposal = pool.remove(index);
                growths.push(picked);
                proof {
                    vstd::seq_lib::to_multiset_remove(before_pool, index as int);
                    vstd::seq_lib::to_multiset_build(before_growths, picked);
                    before_pool.to_multiset_ensures();
                    assert(before_pool.to_multiset().count(picked) > 0);
                    assert(growths@.to_multiset().add(pool@.to_multiset())
                        =~= before_growths.to_multiset().add(before_pool.to_multiset()));
                    assert(all.contains(before_pool[index as int]));
                }
            }
            round += 1;
        }
        proof {
            assert(growths@.to_multiset().subset_of(all.to_multiset())) by {
                assert forall|p: Proposal|
                    growths@.to_multiset().count(p) <= all.to_multiset().count(p) by {
                    assert(all.to_multiset().count(p) == growths@.to_multiset().count(p)
                        + pool@.to_multiset().count(p));
                }
            }
        }
        growths
    }

    /// Decides the growths of this tick: for every rooted plant, in order,
    /// up to the permitted number of its candidates, chosen by chance
    /// without replacement.
    pub fn create_growths(&self) -> (plant_growth: Vec<Vec<Proposal>>)
        requires
            self.inv(),
        ensures
            plant_growth@.len() == self.plants@.len(),
            forall|i: int|
                0 <= i < self.plants@.len() ==> is_selection(
                    (#[trigger] plant_growth@[i])@,
                    self.candidates_spec(self.plants@[i]),
                ),
            forall|i: int, k: int|
                0 <= i < plant_growth@.len() && 0 <= k < plant_growth@[i]@.len()
                    ==> applicable(self.height(), #[trigger] plant_growth@[i]@[k]),
    {
        let mut plant_growth: Vec<Vec<Proposal>> = Vec::with_capacity(self.plants.len());
        let mut i: usize = 0;
        while i < self.plants.len()
            invariant
                self.inv(),
                i <= self.plants@.len(),
                plant_growth@.len() == i,
                forall|a: int|
                    0 <= a < i ==> is_selection(
                        (#[trigger] plant_growth@[a])@,
                        self.candidates_spec(self.plants@[a]),
                    ),
                forall|a: int, k: int|
                    0 <= a < plant_growth@.len() && 0 <= k < plant_growth@[a]@.len()
                        ==> applicable(self.height(), #[trigger] plant_growth@[a]@[k]),
            decreases self.plants@.len() - i,
        {
            assert(living(self.plants@[i as int], self.width(), self.height()));
            let candidates: Vec<Proposal> = self.valid_candidates(&self.plants[i]);
            let ghost pool = candidates@;
            let growths: Vec<Proposal> = Habitat::choose_growths(candidates);
            proof {
                assert forall|k: int| 0 <= k < growths@.len() implies applicable(self.height(), 
                    #[trigger] growths@[k],
                ) by {
                    assert(pool.contains(growths@[k]));
                    let m = choose|m: int| 0 <= m < pool.len() && pool[m] == growths@[k];
                    assert(applicable(self.height(), pool[m]));
                }
            }
            plant_growth.push(growths);
            i += 1;
        }
        plant_growth
    }

    /// Lets every rooted plant grow: the growths of this tick are decided
    /// and applied.
    pub fn grow(&mut self)
        requires
            old(self).inv(),
        ensures
            final(self).inv(),
            grew(*old(self), *final(self)),
    {
        let plant_growth: Vec<Vec<Proposal>> = self.create_growths();
        self.apply_growths(&plant_growth);
        proof {
            let drawn = plant_growth_view(plant_growth@);
            assert(grew_by(*old(self), *self, drawn));
        }
    }

    /// Applies the growths decided for this tick: every plant gains its new
    /// cells and pays for each of them.
    pub fn apply_growths(&mut self, plant_growth: &Vec<Vec<Proposal>>)
        requires
            old(self).inv(),
            plant_growth@.len() == old(self).plants@.len(),
            forall|i: int, k: int|
                0 <= i < plant_growth@.len() && 0 <= k < plant_growth@[i]@.len() ==> applicable(
                    old(self).height(),
                    #[trigger] plant_growth@[i]@[k],
                ),
        ensures
            final(self).inv(),
            growths_applied(*old(self), *final(self), plant_growth_view(plant_growth@)),
    {
        let mut idx: usize = 0;
        while idx < self.plants.len()
            invariant
                self.inv(),
                *self == (Habitat { plants: self.plants, ..*old(self) }),
                idx <= self.plants@.len(),
                self.plants@.len() == old(self).plants@.len(),
                plant_growth@.len() == self.plants@.len(),
                forall|i: int, k: int|
                    0 <= i < plant_growth@.len() && 0 <= k < plant_growth@[i]@.len()
                        ==> applicable(self.height(), #[trigger] plant_growth@[i]@[k]),
                forall|i: int|
                    0 <= i < idx ==> after_growths(old(self).width(), 
                        old(self).plants@[i],
                        plant_growth@[i]@,
                        #[trigger] self.plants@[i],
                    ),
                forall|i: int|
                    idx <= i < self.plants@.len() ==> #[trigger] self.plants@[i]
                        == old(self).plants@[i],
            decreases self.plants@.len() - idx,
        {
            let growths: &Vec<Proposal> = &plant_growth[idx];
            let ghost start = self.plants@[idx as int];
            let ghost world = *self;
            assert(living(start, self.width(), self.height()));
            let mut k: usize = 0;
            while k < growths.len()
                invariant
                    idx < self.plants@.len(),
                    plant_growth@.len() == self.plants@.len(),
                    k <= growths@.len(),
                    *growths == plant_growth@[idx as int],
                    world.inv(),
                    world.grid_size == self.grid_size,
                    forall|m: int|
                        0 <= m < growths@.len() ==> applicable(
                            world.height(),
                            #[trigger] growths@[m],
                        ),
                    *self == (Habitat { plants: self.plants, ..world }),
                    self.plants@.len() == world.plants@.len(),
                    forall|i: int|
                        0 <= i < self.plants@.len() && i != idx ==> #[trigger] self.plants@[i]
                            == world.plants@[i],
                    start == world.plants@[idx as int],
                    living(self.plants@[idx as int], self.width(), self.height()),
                    after_growths(world.width(), 
                        start,
                        growths@.take(k as int),
                        self.plants@[idx as int],
                    ),
                decreases growths@.len() - k,
            {
                let (pos, response_ix, cell_type, energy_cost): Proposal = growths[k];
                assert(applicable(world.height(), growths@[k as int]));
                let target: Pos = Pos { x: wrap(pos.x, self.grid_size.x), y: pos.y };
                let ghost before = self.plants@[idx as int];
                let ghost done = growths@.take(k as int);
                let ghost next = growths@.take(k + 1);
                self.plants[idx].add_cell(target, cell_type, response_ix);
                self.plants[idx].give_energy(-energy_cost);
                proof {
                    let now = self.plants@[idx as int];
                    let cell = PlantCell { pos: target, cell_type, response_ix };
                    assert(ownable(cell));
                    assert(now.cells@ =~= start.cells@ + Seq::new(
                        next.len(),
                        |m: int| grown_cell(world.width(), next[m]),
                    ));
                    assert(energy_after(start.energy, next, k as nat) == energy_after(
                        start.energy,
                        done,
                        k as nat,
                    )) by {
                        lemma_energy_after_prefix(start.energy, done, next, k as nat);
                    }
                    assert forall|j: int| 0 <= j < now.cells@.len() implies ownable(
                        #[trigger] now.cells@[j],
                    ) && now.cells@[j].pos.in_grid(self.width(), self.height()) by {
                        if j < before.cells@.len() {
                            assert(now.cells@[j] == before.cells@[j]);
                        }
                    }
                }
                k += 1;
            }
            assert(growths@.take(growths@.len() as int) =~= growths@);
            idx += 1;
        }
    }
}

/// Paying for the first growths costs the same whatever follows them.
pub proof fn lemma_energy_after_prefix(
    energy: i64,
    shorter: Seq<Proposal>,
    longer: Seq<Proposal>,
    count: nat,
)
    requires
        count <= shorter.len() <= longer.len(),
        forall|k: int| 0 <= k < shorter.len() ==> #[trigger] shorter[k] == longer[k],
    ensures
        energy_after(energy, shorter, count) == energy_after(energy, longer, count),
    decreases count,
{
    if count > 0 {
        lemma_energy_after_prefix(energy, shorter, longer, (count - 1) as nat);
    }
}

} // verus!
