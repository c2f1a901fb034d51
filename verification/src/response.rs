//! One decoded growth rule: where a new cell may grow, under which
//! conditions, and what it becomes.

use vstd::prelude::*;
use crate::cell_types::CellType;
use crate::config::{Config, ENERGY_PARAMETER_LIMIT, GRID_HEIGHT, RESPONSE_READS, RESPONSE_SIZE};
use crate::energy::lemma_product_magnitude;
use crate::genome::{as_bool, normalized, Genome, GenomeView};
use crate::position::Pos;
use crate::ratio::{lemma_product_bounded, Ratio, UNIT};

verus! {

/// A growth rule for one compass direction.
#[derive(Clone, Copy, Debug, PartialEq, Eq, Structural)]
pub struct Response {
    /// The cluster that a cell grown by this rule consults in turn.
    pub target_cluster_index: usize,
    /// The lowest row from which the rule fires; zero means no gate.
    pub height_threshold: i32,
    /// The reciprocal of the growth-bias factor: a bias of `den / num`,
    /// at least one and without bound as the fraction nears zero.
    pub growth_bias_inverse: Ratio,
    /// What the new cell becomes: a fresh leaf or a fully connected trunk.
    pub target_cell_type: CellType,
}

/// The cluster index a raw value denotes.
pub open spec fn cluster_index_spec(raw: u16) -> usize {
    (raw as int % RESPONSE_SIZE as int) as usize
}

/// The height gate decoded from a height fraction and a chance check: the
/// fraction of the default world height, if the check falls within the
/// configured chance, and no gate otherwise.
pub open spec fn height_threshold_spec(fraction: Ratio, check: Ratio, chance: Ratio) -> i32 {
    if check.le_spec(chance) {
        fraction.scale_spec(GRID_HEIGHT as int) as i32
    } else {
        0
    }
}

/// The cell type a boolean draw denotes.
pub open spec fn cell_type_spec(leaf: bool) -> CellType {
    if leaf {
        CellType::Leaf { sun_absorbed: 0 }
    } else {
        CellType::Trunk { root_connection: UNIT }
    }
}

/// The rule that the next five reads of `genome` encode, in their fixed
/// order: cluster index, height fraction, chance check, bias fraction,
/// cell type.
pub open spec fn decode_response(genome: GenomeView, config: Config) -> Response {
    Response {
        target_cluster_index: cluster_index_spec(genome.peek(0)),
        height_threshold: height_threshold_spec(
            normalized(genome.peek(1)),
            normalized(genome.peek(2)),
            config.height_threshold_chance,
        ),
        growth_bias_inverse: normalized(genome.peek(3)),
        target_cell_type: cell_type_spec(as_bool(genome.peek(4))),
    }
}

/// Whether a plant with `current_energy` can afford to grow from a cell of
/// the given root connection under a rule of the given bias: the energy must
/// reach `cost / bias / root_connection`. Stated without division, and false
/// for a cell that has lost all connection.
pub open spec fn affordable(
    current_energy: i64,
    root_connection: u32,
    bias_inverse: Ratio,
    cost: i64,
) -> bool {
    0 < root_connection && current_energy * bias_inverse.den * root_connection >= cost
        * bias_inverse.num * UNIT
}

impl Response {
    /// The fields are within the ranges that decoding produces.
    pub open spec fn wf(self) -> bool {
        &&& self.target_cluster_index < RESPONSE_SIZE
        &&& 0 <= self.height_threshold <= GRID_HEIGHT
        &&& self.growth_bias_inverse.wf()
        &&& (self.target_cell_type == CellType::Leaf { sun_absorbed: 0 }
            || self.target_cell_type == CellType::Trunk { root_connection: UNIT })
    }

    /// Runtime form of [`Response::wf`].
    pub fn is_valid(&self) -> (valid: bool)
        ensures
            valid == self.wf(),
    {
        let fresh: bool = match self.target_cell_type {
            CellType::Leaf { sun_absorbed } => sun_absorbed == 0,
            CellType::Trunk { root_connection } => root_connection == UNIT,
            _ => false,
        };
        self.target_cluster_index < RESPONSE_SIZE && 0 <= self.height_threshold
            && self.height_threshold <= GRID_HEIGHT && self.growth_bias_inverse.is_valid() && fresh
    }

    /// Decodes one rule from five consecutive reads.
    pub fn new(genome: &mut Genome, config: &Config) -> (response: Response)
        requires
            old(genome).wf(),
            config.wf(),
        ensures
            final(genome).wf(),
            final(genome)@ == old(genome)@.advance(RESPONSE_READS as nat),
            response == decode_response(old(genome)@, *config),
            response.wf(),
    {
        proof {
            crate::genome::lemma_advance_step(old(genome)@, 0);
            crate::genome::lemma_advance_step(old(genome)@, 1);
            crate::genome::lemma_advance_step(old(genome)@, 2);
            crate::genome::lemma_advance_step(old(genome)@, 3);
            crate::genome::lemma_advance_step(old(genome)@, 4);
            vstd::arithmetic::div_mod::lemma_small_mod(
                old(genome)@.cursor,
                old(genome)@.data.len(),
            );
        }
        let raw: u16 = genome.parse_value();
        let target_cluster_index: usize = Response::parse_cluster_index(raw);
        let fraction: Ratio = genome.parse_value_normalized();
        let check: Ratio = genome.parse_value_normalized();
        let height_threshold: i32 = if check.le(config.height_threshold_chance) {
            fraction.scale(GRID_HEIGHT as u32) as i32
        } else {
            0
        };
        let growth_bias_inverse: Ratio = genome.parse_value_normalized();
        let target_cell_type: CellType = if genome.parse_bool() {
            CellType::new_leaf()
        } else {
            CellType::new_root()
        };
        Response { target_cluster_index, height_threshold, growth_bias_inverse, target_cell_type }
    }

    /// The cluster that a cell grown by this rule consults.
    pub fn get_cluster_index(&self) -> (index: usize)
        ensures
            index == self.target_cluster_index,
    {
        self.target_cluster_index
    }

    /// Whether the rule fires for a cell at `pos`.
    pub open spec fn is_active_spec(
        self,
        pos: Pos,
        current_energy: i64,
        root_connection: u32,
        config: Config,
    ) -> bool {
        (self.height_threshold == 0 || pos.y >= self.height_threshold) && affordable(
            current_energy,
            root_connection,
            self.growth_bias_inverse,
            config.cell_growth_cost,
        )
    }

    /// Whether the rule fires for a cell at `pos` of a plant with
    /// `current_energy`, given the cell's root connection: the cell must be
    /// at or above the height gate, if there is one, and the plant must
    /// afford the growth.
    pub fn is_active(
        &self,
        pos: &Pos,
        current_energy: i64,
        root_connection: u32,
        config: &Config,
    ) -> (active: bool)
        requires
            config.wf(),
        ensures
            active == self.is_active_spec(*pos, current_energy, root_connection, *config),
    {
        let height_reached: bool = self.height_threshold == 0 || pos.y >= self.height_threshold;
        if root_connection == 0 {
            return false;
        }
        let den: i128 = self.growth_bias_inverse.den as i128;
        let num: i128 = self.growth_bias_inverse.num as i128;
        proof {
            let limit = 0xffff_ffffint;
            lemma_product_bounded(den as int, root_connection as int, limit, limit);
            lemma_product_magnitude(
                current_energy as int,
                den * root_connection,
                0x8000_0000_0000_0000int,
                limit * limit,
            );
            assert(current_energy * den * root_connection == current_energy * (den
                * root_connection)) by (nonlinear_arith);
            lemma_product_bounded(
                config.cell_growth_cost as int,
                num as int,
                ENERGY_PARAMETER_LIMIT as int,
                limit,
            );
            lemma_product_bounded(
                config.cell_growth_cost * num,
                UNIT as int,
                ENERGY_PARAMETER_LIMIT * limit,
                UNIT as int,
            );
        }
        let weight: i128 = den * (root_connection as i128);
        let have: i128 = (current_energy as i128) * weight;
        let need: i128 = (config.cell_growth_cost as i128) * num * (UNIT as i128);
        height_reached && have >= need
    }

    /// What a cell grown by this rule becomes.
    pub fn get_cell_type(&self) -> (cell: CellType)
        ensures
            cell == self.target_cell_type,
    {
        self.target_cell_type
    }

    /// Maps a raw value onto the indices of a plant's clusters.
    pub fn parse_cluster_index(x: u16) -> (index: usize)
        ensures
            index == cluster_index_spec(x),
            index < RESPONSE_SIZE,
    {
        (x as usize) % RESPONSE_SIZE
    }
}

} // verus!
