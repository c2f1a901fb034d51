//! One tick of the world: twelve phases in a fixed order, each reading what
//! the phases before it have left.

use vstd::prelude::*;
use crate::energy::saturated;
use crate::growth::{after_growths, grew, grew_by};
use crate::habitat::{aged, living, rebuilt, selection_refreshed, shows, sunlit, Habitat};
use crate::lifecycle::{
    alive_pred, dead_removed, drawn_at, energy_settled, released_by_marks, remains_decayed,
    remains_of_first, unmarked,
};
use crate::light::lit;
use crate::plant::{Plant, Proposal};
use crate::position::{wrap_spec, Pos};
use crate::seeds::{
    buffered_in_first, can_wait, dropped_at, floor_enforced, freshly_rooted, ground_settled,
    landed_in, seed_at, seeds_flew, seeds_shown, still_airborne,
};

verus! {

/// The states of the world through one tick, from the state before the
/// first phase to the state after the last, each of them sound: the
/// population floor is enforced, the plants age, the plants grow, the dead
/// are removed, the grid is rebuilt, the sun shines, energy is settled, the
/// remains decay, the selection is resolved, the seeds fly, the ground is
/// settled, and the seeds in the air are shown.
pub open spec fn is_tick(trace: Seq<Habitat>) -> bool {
    &&& trace.len() == 13
    &&& forall|i: int| 0 <= i < trace.len() ==> (#[trigger] trace[i]).inv()
    &&& floor_enforced(trace[0], trace[1])
    &&& aged(trace[1], trace[2])
    &&& grew(trace[2], trace[3])
    &&& dead_removed(trace[3], trace[4])
    &&& rebuilt(trace[4], trace[5])
    &&& sunlit(trace[5], trace[6])
    &&& energy_settled(trace[6], trace[7])
    &&& remains_decayed(trace[7], trace[8])
    &&& selection_refreshed(trace[8], trace[9])
    &&& seeds_flew(trace[9], trace[10])
    &&& ground_settled(trace[10], trace[11])
    &&& seeds_shown(trace[11], trace[12])
}

/// Whether `post` is a state that one tick can make of `pre`.
pub open spec fn ticked(pre: Habitat, post: Habitat) -> bool {
    exists|trace: Seq<Habitat>| #[trigger] is_tick(trace) && trace[0] == pre && trace[12] == post
}

impl Habitat {
    /// Advances the world by one tick. In this order: a seed is dropped if
    /// the population is below its floor; every rooted plant ages; every
    /// rooted plant grows; the dead are removed and release their seeds;
    /// the grid is rebuilt; the sun shines; energy is settled; the remains
    /// decay; the selection is resolved; the seeds in the air fall; the
    /// seeds in the ground germinate or wither; and the seeds in the air
    /// are shown.
    pub fn update(&mut self)
        requires
            old(self).wf(),
        ensures
            final(self).wf(),
            ticked(*old(self), *final(self)),
            final(self).grid_size == old(self).grid_size,
            final(self).config == old(self).config,
            final(self).minimum_plants == old(self).minimum_plants,
            final(self).selected_pos == old(self).selected_pos || final(self).selected_pos is None,
            forall|i: int|
                0 <= i < final(self).plants@.len() ==> !(
                #[trigger] final(self).plants@[i]).is_dead_spec(),
            forall|c: int, k: int|
                0 <= c < final(self).width() && 0 <= k < final(self).ground_buffer@[c]@.len() ==> (
                #[trigger] final(self).ground_buffer@[c]@[k]).energy > 0,
            forall|pos: Pos|
                pos.in_grid(final(self).width(), final(self).height()) ==> (
                #[trigger] final(self).cell_at(pos) is Seed <==> seed_at(final(self).seeds@, pos)),
            old(self).config.dead_cell_remove_rate.is_one() ==> final(self).dead_cells@.len() == 0,
            old(self).config.dead_cell_remove_rate.is_zero() ==> old(self).dead_cells@.len()
                <= final(self).dead_cells@.len() && final(self).dead_cells@.take(
                old(self).dead_cells@.len() as int,
            ) == old(self).dead_cells@,
    {
        let ghost s0 = *self;
        self.enforce_minimum();
        let ghost s1 = *self;
        self.age_plants();
        let ghost s2 = *self;
        self.grow();
        let ghost s3 = *self;
        self.remove_dead();
        let ghost s4 = *self;
        proof {
            assert forall|i: int| 0 <= i < s4.plants@.len() implies !(
            #[trigger] s4.plants@[i]).is_dead_spec() by {
                s3.plants@.lemma_filter_pred(alive_pred(), i);
            }
            assert((s0.dead_cells@ + remains_of_first(s3.plants@, s3.plants@.len())).take(
                s0.dead_cells@.len() as int,
            ) =~= s0.dead_cells@);
        }
        self.apply_plants();
        let ghost s5 = *self;
        self.update_all_columns();
        let ghost s6 = *self;
        proof {
            assert forall|pos: Pos| pos.in_grid(s6.width(), s6.height()) implies !(
            #[trigger] s6.cell_at(pos) is Seed) by {
                vstd::arithmetic::div_mod::lemma_small_mod(pos.x as nat, s6.width() as nat);
                let shown = s5.cell_at(pos);
                assert(crate::habitat::shows(s4.plants@, s4.dead_cells@, pos, shown));
                assert(s6.cell_map@[pos.x as int]@ == lit(s5.cell_map@[pos.x as int]@, s5.config));
            }
        }
        self.supply_plant_energy();
        let ghost s7 = *self;
        proof {
            assert forall|i: int| 0 <= i < s7.plants@.len() implies !(
            #[trigger] s7.plants@[i]).is_dead_spec() by {
                assert(!s4.plants@[i].is_dead_spec());
            }
        }
        self.decay_dead_cells();
        let ghost s8 = *self;
        self.refresh_selection();
        let ghost s9 = *self;
        self.update_seeds();
        let ghost s10 = *self;
        self.update_grounded_buffer();
        let ghost s11 = *self;
        self.show_seeds();
        proof {
            let trace = seq![s0, s1, s2, s3, s4, s5, s6, s7, s8, s9, s10, s11, *self];
            assert(is_tick(trace));
            assert(trace[0] == s0 && trace[12] == *self);
            assert forall|i: int| 0 <= i < self.plants@.len() implies !(
            #[trigger] self.plants@[i]).is_dead_spec() by {
                if i < s9.plants@.len() {
                    assert(self.plants@[i] == s9.plants@[i]);
                } else {
                    assert(freshly_rooted(self.plants@[i]));
                }
            }
            assert forall|c: int, k: int|
                0 <= c < self.width() && 0 <= k < self.ground_buffer@[c]@.len() implies (
            #[trigger] self.ground_buffer@[c]@[k]).energy > 0 by {
                crate::seeds::lemma_survivors_have_energy(
                    s10.waiting(c),
                    s10.config.seed_energy_drain,
                    s10.waiting(c).len(),
                );
            }
            assert forall|pos: Pos| pos.in_grid(self.width(), self.height()) implies (
            #[trigger] self.cell_at(pos) is Seed <==> seed_at(self.seeds@, pos)) by {
                assert(s11.cell_at(pos) == s6.cell_at(pos));
            }
        }
    }
}

/// Where every buffer of the ground is empty, no seed is waiting.
pub proof fn lemma_no_seed_waiting(ground: Seq<Vec<Plant>>, count: nat)
    requires
        count <= ground.len(),
        forall|c: int| 0 <= c < count ==> (#[trigger] ground[c])@.len() == 0,
    ensures
        buffered_in_first(ground, count) == 0,
    decreases count,
{
    if count > 0 {
        lemma_no_seed_waiting(ground, (count - 1) as nat);
    }
}

/// Among the first `count` columns, germination takes place in at most the
/// one column `only` if no other column holds a waiting seed.
pub proof fn lemma_germinating_alone(world: Habitat, only: int, count: nat)
    requires
        forall|c: int| 0 <= c < count && c != only ==> !#[trigger] world.germinates(c),
    ensures
        world.germinating_in_first(count).len() == if 0 <= only < count && world.germinates(
            only,
        ) {
            1nat
        } else {
            0nat
        },
    decreases count,
{
    if count > 0 {
        lemma_germinating_alone(world, only, (count - 1) as nat);
    }
}

/// A sequence whose every element passes a test is its own filtrate.
pub proof fn lemma_filter_keeps_all(plants: Seq<Plant>, test: spec_fn(Plant) -> bool)
    requires
        forall|i: int| 0 <= i < plants.len() ==> test(#[trigger] plants[i]),
    ensures
        plants.filter(test) == plants,
    decreases plants.len(),
{
    reveal(Seq::filter);
    if plants.len() > 0 {
        lemma_filter_keeps_all(plants.drop_last(), test);
        assert(plants.drop_last().push(plants.last()) =~= plants);
    }
}

/// Where none of the first `count` plants is dead, nothing is left behind.
pub proof fn lemma_no_remains(plants: Seq<Plant>, count: nat)
    requires
        count <= plants.len(),
        forall|i: int| 0 <= i < count ==> !(#[trigger] plants[i]).is_dead_spec(),
    ensures
        remains_of_first(plants, count).len() == 0,
    decreases count,
{
    if count > 0 {
        lemma_no_remains(plants, (count - 1) as nat);
    }
}

/// A seed that lands has the energy it flew with: if every seed in the air
/// could wait in the ground, so can every seed that has landed.
pub proof fn lemma_landed_can_wait(
    seeds: Seq<Plant>,
    drifts: Seq<i32>,
    width: int,
    column: int,
    drain: i64,
    count: nat,
)
    requires
        count <= seeds.len(),
        forall|k: int| 0 <= k < count ==> can_wait(#[trigger] seeds[k], drain),
    ensures
        forall|k: int|
            0 <= k < landed_in(seeds, drifts, width, column, count).len() ==> can_wait(
                #[trigger] landed_in(seeds, drifts, width, column, count)[k],
                drain,
            ),
    decreases count,
{
    if count > 0 {
        lemma_landed_can_wait(seeds, drifts, width, column, drain, (count - 1) as nat);
        let before = landed_in(seeds, drifts, width, column, (count - 1) as nat);
        let now = landed_in(seeds, drifts, width, column, count);
        assert forall|k: int| 0 <= k < now.len() implies can_wait(#[trigger] now[k], drain) by {
            if k < before.len() {
                assert(now[k] == before[k]);
            } else {
                assert(can_wait(seeds[count - 1], drain));
            }
        }
    }
}

/// Population accounting over a quiet tick. In a world below its
/// population floor whose canopy is free, one tick adds exactly one plant,
/// provided that nothing else is gained or lost in that tick: no rooted
/// plant comes of the age at which it dies, and every seed, the new one
/// included, could pay the drain of the ground.
pub proof fn lemma_quiet_tick_below_floor_adds_one(pre: Habitat, post: Habitat)
    requires
        pre.wf(),
        ticked(pre, post),
        pre.total_plants() < pre.minimum_plants,
        forall|column: int| 0 <= column < pre.width() ==> #[trigger] pre.top_is_free(column),
        forall|i: int|
            0 <= i < pre.plants@.len() ==> !(#[trigger] pre.plants@[i]).aged().is_too_old_spec(),
        saturated(pre.config.default_energy - pre.config.seed_energy_drain) > 0,
        forall|k: int|
            0 <= k < pre.seeds@.len() ==> can_wait(
                #[trigger] pre.seeds@[k],
                pre.config.seed_energy_drain,
            ),
        forall|c: int, k: int|
            0 <= c < pre.width() && 0 <= k < pre.ground_buffer@[c]@.len() ==> can_wait(
                #[trigger] pre.ground_buffer@[c]@[k],
                pre.config.seed_energy_drain,
            ),
    ensures
        post.total_plants() == pre.total_plants() + 1,
{
    let trace = choose|trace: Seq<Habitat>|
        #[trigger] is_tick(trace) && trace[0] == pre && trace[12] == post;
    let width = pre.width();
    let drain = pre.config.seed_energy_drain;
    // the floor: one seed is dropped for certain
    let s1 = trace[1];
    let column = choose|column: int| 0 <= column < width && #[trigger] dropped_at(pre, s1, column);
    assert(pre.top_is_free(column));
    crate::seeds::lemma_drop_adds_one(pre, s1, column);
    assert forall|k: int| 0 <= k < s1.seeds@.len() implies can_wait(
        #[trigger] s1.seeds@[k],
        drain,
    ) by {
        if k < pre.seeds@.len() {
            assert(s1.seeds@.drop_last()[k] == pre.seeds@[k]);
        } else {
            assert(s1.seeds@[k] == s1.seeds@.last());
        }
    }
    // ageing and growth leave everyone alive
    let s2 = trace[2];
    let s3 = trace[3];
    let growths = choose|growths: Seq<Seq<Proposal>>| #[trigger] grew_by(s2, s3, growths);
    assert forall|i: int| 0 <= i < s3.plants@.len() implies alive_pred()(
        #[trigger] s3.plants@[i],
    ) by {
        assert(s2.plants@[i] == s1.plants@[i].aged());
        assert(living(s2.plants@[i], s2.width(), s2.height()));
        assert(after_growths(s2.width(), s2.plants@[i], growths[i], s3.plants@[i]));
    }
    // so nobody is removed and no seed is released
    let s4 = trace[4];
    lemma_filter_keeps_all(s3.plants@, alive_pred());
    lemma_no_remains(s3.plants@, s3.plants@.len());
    let marks = choose|marks: Seq<bool>| #[trigger] released_by_marks(s3, s4, marks);
    assert(s4.seeds@.skip(s3.seeds@.len() as int).len() == 0);
    assert(s4.seeds@ =~= s3.seeds@);
    // the phases that follow change neither seeds nor their number
    let s9 = trace[9];
    assert(s9.seeds@ == s1.seeds@);
    assert(s9.ground_buffer@ == pre.ground_buffer@);
    assert(s9.plants@.len() == pre.plants@.len());
    assert(s9.total_plants() == s1.total_plants());
    // flight keeps every seed
    let s10 = trace[10];
    crate::seeds::lemma_flight_keeps_count(s9, s10);
    let drifts = choose|drifts: Seq<i32>|
        {
            &&& drifts.len() == s9.seeds@.len()
            &&& forall|k: int| 0 <= k < drifts.len() ==> -1 <= #[trigger] drifts[k] <= 1
            &&& s10.seeds@ == #[trigger] still_airborne(
                s9.seeds@,
                drifts,
                s9.width(),
                s9.seeds@.len(),
            )
            &&& forall|c: int|
                0 <= c < s9.width() ==> (#[trigger] s10.ground_buffer@[c])@
                    == s9.ground_buffer@[c]@ + landed_in(
                    s9.seeds@,
                    drifts,
                    s9.width(),
                    c,
                    s9.seeds@.len(),
                )
        };
    assert forall|c: int, k: int|
        0 <= c < width && 0 <= k < s10.ground_buffer@[c]@.len() implies can_wait(
        #[trigger] s10.ground_buffer@[c]@[k],
        drain,
    ) by {
        lemma_landed_can_wait(s9.seeds@, drifts, width, c, drain, s9.seeds@.len());
        if k < s9.ground_buffer@[c]@.len() {
            assert(s10.ground_buffer@[c]@[k] == pre.ground_buffer@[c]@[k]);
        } else {
            let landed = landed_in(s9.seeds@, drifts, width, c, s9.seeds@.len());
            assert(s10.ground_buffer@[c]@[k] == landed[k - s9.ground_buffer@[c]@.len()]);
        }
    }
    // and nobody withers in the ground
    let s11 = trace[11];
    crate::seeds::lemma_settling_account(s10, s11, width as nat);
}

/// A tick below the population floor adds exactly one plant to a world
/// that holds none, has no remains on record, and whose canopy is free:
/// the seed that is dropped is still there when the tick ends, in the air
/// or, in a world one row high, already rooted.
pub proof fn lemma_tick_below_floor_adds_one(pre: Habitat, post: Habitat)
    requires
        pre.wf(),
        ticked(pre, post),
        pre.plants@.len() == 0,
        pre.seeds@.len() == 0,
        pre.dead_cells@.len() == 0,
        forall|c: int| 0 <= c < pre.width() ==> (#[trigger] pre.ground_buffer@[c])@.len() == 0,
        forall|column: int| 0 <= column < pre.width() ==> #[trigger] pre.top_is_free(column),
        0 < pre.minimum_plants,
    ensures
        post.total_plants() == 1,
        post.plants@.len() + post.seeds@.len() == 1,
{
    let trace = choose|trace: Seq<Habitat>|
        #[trigger] is_tick(trace) && trace[0] == pre && trace[12] == post;
    let width = pre.width();
    let height = pre.height();
    // the floor: one seed is dropped for certain
    let s1 = trace[1];
    lemma_no_seed_waiting(pre.ground_buffer@, pre.ground_buffer@.len());
    let column = choose|column: int| 0 <= column < width && #[trigger] dropped_at(pre, s1, column);
    assert(pre.top_is_free(column));
    let seed = s1.seeds@[0];
    assert(s1.seeds@.len() == 1);
    assert(seed.pos == (Pos { x: column as i32, y: (height - 1) as i32 }));
    // nothing lives, so nothing ages, grows or dies
    let s2 = trace[2];
    let s3 = trace[3];
    let growths = choose|growths: Seq<Seq<Proposal>>| #[trigger] grew_by(s2, s3, growths);
    let s4 = trace[4];
    assert(s3.plants@ =~= Seq::<Plant>::empty());
    assert(s3.plants@.filter(alive_pred()) =~= Seq::<Plant>::empty()) by {
        reveal(Seq::filter);
    }
    let marks = choose|marks: Seq<bool>| #[trigger] released_by_marks(s3, s4, marks);
    assert(s4.seeds@.skip(1).len() == 0);
    assert(s4.seeds@.len() == 1);
    assert(s4.seeds@.take(1) =~= s4.seeds@);
    assert(s4.seeds@[0] == seed);
    assert(s4.dead_cells@.len() == 0);
    // the grid is rebuilt empty, and the sun changes nothing in it
    let s5 = trace[5];
    let s6 = trace[6];
    assert forall|c: int| 0 <= c < width implies (#[trigger] s6.cell_at(Pos { x: c as i32, y: 0 }))
        is Empty by {
        let ground = Pos { x: c as i32, y: 0 };
        vstd::arithmetic::div_mod::lemma_small_mod(c as nat, width as nat);
        assert(shows(s4.plants@, s4.dead_cells@, ground, s5.cell_at(ground)));
        assert(s6.cell_map@[c]@ == lit(s5.cell_map@[c]@, s5.config));
    }
    let s7 = trace[7];
    let s8 = trace[8];
    let decay = choose|decay: Seq<bool>|
        decay.len() == s7.dead_cells@.len() && drawn_at(decay, s7.config.dead_cell_remove_rate)
            && s8.dead_cells@ == #[trigger] unmarked(s7.dead_cells@, decay);
    let s9 = trace[9];
    assert(s9.seeds@.len() == 1 && s9.seeds@[0] == seed);
    assert(s9.plants@.len() == 0);
    assert forall|c: int| 0 <= c < width implies (#[trigger] s9.ground_buffer@[c])@.len() == 0 by {
        assert(s9.ground_buffer@[c] == pre.ground_buffer@[c]);
    }
    // the seed flies, and lands at once where the world is one row high
    let s10 = trace[10];
    let drifts = choose|drifts: Seq<i32>|
        {
            &&& drifts.len() == s9.seeds@.len()
            &&& forall|k: int| 0 <= k < drifts.len() ==> -1 <= #[trigger] drifts[k] <= 1
            &&& s10.seeds@ == #[trigger] still_airborne(
                s9.seeds@,
                drifts,
                s9.width(),
                s9.seeds@.len(),
            )
            &&& forall|c: int|
                0 <= c < s9.width() ==> (#[trigger] s10.ground_buffer@[c])@
                    == s9.ground_buffer@[c]@ + landed_in(
                    s9.seeds@,
                    drifts,
                    s9.width(),
                    c,
                    s9.seeds@.len(),
                )
        };
    let landing = wrap_spec(seed.pos.x + drifts[0], width);
    vstd::arithmetic::div_mod::lemma_mod_bound(seed.pos.x + drifts[0], width);
    reveal_with_fuel(still_airborne, 2);
    reveal_with_fuel(landed_in, 2);
    let s11 = trace[11];
    assert(s10.cell_map == s6.cell_map);
    if height > 1 {
        assert(s10.seeds@.len() == 1);
        assert forall|c: int| 0 <= c < width implies !#[trigger] s10.germinates(c) by {
            assert(s10.ground_buffer@[c]@ =~= s9.ground_buffer@[c]@);
        }
        lemma_germinating_alone(s10, -1, width as nat);
        assert forall|c: int| 0 <= c < width implies (#[trigger] s11.ground_buffer@[c])@.len()
            == 0 by {
            assert(s10.waiting(c).len() == 0);
        }
    } else {
        assert(s10.seeds@.len() == 0);
        assert forall|c: int| 0 <= c < width && c != landing implies !#[trigger] s10.germinates(
            c,
        ) by {
            assert(s10.ground_buffer@[c]@ =~= s9.ground_buffer@[c]@);
        }
        assert(s10.ground_buffer@[landing]@.len() == 1);
        assert(s10.cell_at(Pos { x: landing as i32, y: 0 }) == s6.cell_at(
            Pos { x: landing as i32, y: 0 },
        ));
        assert(s10.germinates(landing));
        lemma_germinating_alone(s10, landing, width as nat);
        assert forall|c: int| 0 <= c < width implies (#[trigger] s11.ground_buffer@[c])@.len()
            == 0 by {
            if c == landing {
                assert(s10.waiting(c) =~= Seq::<Plant>::empty());
            } else {
                assert(s10.waiting(c).len() == 0);
            }
        }
    }
    lemma_no_seed_waiting(s11.ground_buffer@, s11.ground_buffer@.len());
}

} // verus!
