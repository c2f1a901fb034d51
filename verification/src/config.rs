//! The tunable parameters of a world and the structural constants of its
//! organisms.

use vstd::prelude::*;
use crate::ratio::Ratio;

verus! {

/// How many raw values a freshly drawn genome holds. A plant reads fewer
/// than this; the unread tail is neutral material for mutation.
pub const GENOME_SIZE: usize = 1000;

/// How many response clusters a plant decodes from its genome.
pub const RESPONSE_SIZE: usize = 30;

/// How many genome values one response consumes.
pub const RESPONSE_READS: usize = 5;

/// How many genome values one cluster of four responses consumes.
pub const CLUSTER_READS: usize = 20;

/// The most cells a plant may add in one tick.
pub const MAX_GROWTHS_PER_ITERATION: usize = 1;

/// The age every rooted plant may reach.
pub const BASE_MAX_AGE: usize = 40;

/// The extra ticks of life each owned cell grants.
pub const MAX_AGE_CELL_MODIFIER: usize = 3;

/// Width of the default world, in columns.
pub const GRID_WIDTH: i32 = 512;

/// Height of the default world, in rows. Height gates of responses are
/// scaled to this height.
pub const GRID_HEIGHT: i32 = 32;

/// The largest magnitude an energy parameter may take, in millionths.
pub const ENERGY_PARAMETER_LIMIT: i64 = 1_000_000_000_000;

/// The parameters that shape selection pressure. Rates are exact fractions;
/// energies are whole numbers of millionths.
#[derive(Clone, Copy, Debug)]
pub struct Config {
    /// Factor by which the root connection shrinks per growth step.
    pub root_con_decay: Ratio,
    /// Share of the passing light that a trunk or a dead cell blocks.
    pub trunk_absorb_rate: Ratio,
    /// Share of the passing light that a leaf absorbs.
    pub leaf_absorb_rate: Ratio,
    /// Probability that one genome value is redrawn in an offspring.
    pub mutation_rate: Ratio,
    /// Probability that a response is locked behind a height gate.
    pub height_threshold_chance: Ratio,
    /// Probability per tick that a dead-cell marker disappears.
    pub dead_cell_remove_rate: Ratio,
    /// Probability that a cell of a dying plant releases a seed.
    pub seed_spawn_rate: Ratio,
    /// Energy needed to grow a cell from a fully connected parent.
    pub cell_growth_cost: i64,
    /// Energy each owned cell consumes per tick.
    pub cell_sustain_energy_cost: i64,
    /// Energy a plant without ancestry starts with.
    pub default_energy: i64,
    /// Energy gained per whole unit of absorbed light.
    pub sun_power: i64,
    /// Energy a dormant seed in the ground loses per tick.
    pub seed_energy_drain: i64,
    /// Energy bequeathed to a seed per tick its parent has lived.
    pub lifetime_factor: i64,
}

/// True when `value` is a permitted energy parameter.
pub open spec fn energy_parameter(value: i64) -> bool {
    0 <= value <= ENERGY_PARAMETER_LIMIT
}

impl Config {
    /// Every rate is a probability and every energy parameter is
    /// non-negative and within the limit.
    pub open spec fn wf(self) -> bool {
        &&& self.root_con_decay.wf()
        &&& self.trunk_absorb_rate.wf()
        &&& self.leaf_absorb_rate.wf()
        &&& self.mutation_rate.wf()
        &&& self.height_threshold_chance.wf()
        &&& self.dead_cell_remove_rate.wf()
        &&& self.seed_spawn_rate.wf()
        &&& energy_parameter(self.cell_growth_cost)
        &&& energy_parameter(self.cell_sustain_energy_cost)
        &&& energy_parameter(self.default_energy)
        &&& energy_parameter(self.sun_power)
        &&& energy_parameter(self.seed_energy_drain)
        &&& energy_parameter(self.lifetime_factor)
    }

    /// The parameter set the simulation ships with.
    pub open spec fn standard_spec() -> Config {
        Config {
            root_con_decay: Ratio { num: 4, den: 5 },
            trunk_absorb_rate: Ratio { num: 1, den: 10 },
            leaf_absorb_rate: Ratio { num: 1, den: 4 },
            mutation_rate: Ratio { num: 1, den: 200 },
            height_threshold_chance: Ratio { num: 1, den: 2 },
            dead_cell_remove_rate: Ratio { num: 3, den: 20 },
            seed_spawn_rate: Ratio { num: 1, den: 10 },
            cell_growth_cost: 1_000_000,
            cell_sustain_energy_cost: 500_000,
            default_energy: 125_000_000,
            sun_power: 4_000_000,
            seed_energy_drain: 500_000,
            lifetime_factor: 1_000_000,
        }
    }

    /// Returns the parameter set the simulation ships with.
    pub fn standard() -> (config: Config)
        ensures
            config == Config::standard_spec(),
            config.wf(),
    {
        Config {
            root_con_decay: Ratio { num: 4, den: 5 },
            trunk_absorb_rate: Ratio { num: 1, den: 10 },
            leaf_absorb_rate: Ratio { num: 1, den: 4 },
            mutation_rate: Ratio { num: 1, den: 200 },
            height_threshold_chance: Ratio { num: 1, den: 2 },
            dead_cell_remove_rate: Ratio { num: 3, den: 20 },
            seed_spawn_rate: Ratio { num: 1, den: 10 },
            cell_growth_cost: 1_000_000,
            cell_sustain_energy_cost: 500_000,
            default_energy: 125_000_000,
            sun_power: 4_000_000,
            seed_energy_drain: 500_000,
            lifetime_factor: 1_000_000,
        }
    }

    /// Runtime check of well-formedness, for parameter sets built by hand.
    pub fn is_valid(&self) -> (valid: bool)
        ensures
            valid == self.wf(),
    {
        self.root_con_decay.is_valid() && self.trunk_absorb_rate.is_valid()
            && self.leaf_absorb_rate.is_valid() && self.mutation_rate.is_valid()
            && self.height_threshold_chance.is_valid() && self.dead_cell_remove_rate.is_valid()
            && self.seed_spawn_rate.is_valid() && is_energy_parameter(self.cell_growth_cost)
            && is_energy_parameter(self.cell_sustain_energy_cost) && is_energy_parameter(
            self.default_energy,
        ) && is_energy_parameter(self.sun_power) && is_energy_parameter(self.seed_energy_drain)
            && is_energy_parameter(self.lifetime_factor)
    }
}

/// Runtime form of [`energy_parameter`].
pub fn is_energy_parameter(value: i64) -> (ok: bool)
    ensures
        ok == energy_parameter(value),
{
    0 <= value && value <= ENERGY_PARAMETER_LIMIT
}

impl Default for Config {
    fn default() -> (config: Config)
        ensures
            config == Config::standard_spec(),
    {
        Config::standard()
    }
}

} // verus!
