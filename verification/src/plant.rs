//! One organism: its cells, its energy and age, its genome and the rules
//! decoded from it.

use vstd::prelude::*;
use crate::cell_types::CellType;
use crate::config::{
    Config, BASE_MAX_AGE, CLUSTER_READS, ENERGY_PARAMETER_LIMIT, GENOME_SIZE,
    MAX_AGE_CELL_MODIFIER, RESPONSE_SIZE,
};
use crate::energy::{saturate, saturated};
use crate::genome::{Genome, GenomeView};
use crate::plant_cell::{ownable, PlantCell};
use crate::position::{has_neighbours, Pos};
use crate::ratio::{lemma_power_sign, lemma_product_bounded, power, Ratio, UNIT};
use crate::response_cluster::{decode_cluster, lemma_advance_sum, ResponseCluster, Target};

verus! {

/// A plant, from seed through rooted growth to death.
#[derive(Debug)]
pub struct Plant {
    /// The owned cells in the order they were grown; the root comes first.
    pub cells: Vec<PlantCell>,
    /// Where the seed is, or where the root stands.
    pub pos: Pos,
    /// Whether the plant has germinated.
    pub has_root: bool,
    /// The energy balance, in millionths; may be negative.
    pub energy: i64,
    /// The age in ticks.
    pub lifetime: usize,
    /// The plant's own genetic sequence.
    pub genome: Genome,
    /// The rules decoded from the genome.
    pub response_clusters: Vec<ResponseCluster>,
}

/// A proposed growth: where the new cell goes, which cluster it will
/// consult, what it is, and what growing it costs.
pub type Proposal = (Pos, usize, CellType, i64);

/// The table of clusters that a genome encodes from its cursor on.
pub open spec fn decode_clusters(genome: GenomeView, config: Config) -> Seq<ResponseCluster> {
    Seq::new(
        RESPONSE_SIZE as nat,
        |i: int| decode_cluster(genome.advance((CLUSTER_READS * i) as nat), config),
    )
}

/// The type of a cell grown from a parent of the given root connection: a
/// trunk is connected through its parent, weakened by the decay factor; a
/// leaf is what it is.
pub open spec fn grown(cell_type: CellType, parent_connection: u32, decay: Ratio) -> CellType {
    match cell_type {
        CellType::Trunk { .. } => CellType::Trunk {
            root_connection: decay.scale_spec(parent_connection as int) as u32,
        },
        other => other,
    }
}

/// The energy it costs to grow a cell from a parent of the given root
/// connection: the base cost divided by the connection, rounded down. A
/// parent without any connection grows nothing, and the cost is set to zero.
pub open spec fn growth_cost_spec(cost: i64, parent_connection: u32) -> i64 {
    if parent_connection == 0 {
        0
    } else {
        (cost * UNIT / parent_connection as int) as i64
    }
}

/// The proposal that an offer of a rule becomes.
pub open spec fn proposal_of(target: Target, parent_connection: u32, config: Config) -> Proposal {
    (
        target.0,
        target.1,
        grown(target.2, parent_connection, config.root_con_decay),
        growth_cost_spec(config.cell_growth_cost, parent_connection),
    )
}

/// What a habitat may accept from a proposal before it checks the target
/// against its grid.
pub open spec fn acceptable(proposal: Proposal) -> bool {
    &&& proposal.1 < RESPONSE_SIZE
    &&& proposal.2.wf()
    &&& (proposal.2 is Leaf || proposal.2 is Trunk)
    &&& 0 <= proposal.3
}

/// The root connection after `steps` growth steps away from the root.
pub open spec fn chain_connection(steps: nat, decay: Ratio) -> int
    decreases steps,
{
    if steps == 0 {
        UNIT as int
    } else {
        decay.scale_spec(chain_connection((steps - 1) as nat, decay))
    }
}

impl Plant {
    /// The plant can be asked for growth proposals: it can read its genome,
    /// has its full table of clusters, and owns only ownable cells.
    pub open spec fn wf(&self) -> bool {
        &&& self.genome.wf()
        &&& has_neighbours(self.pos)
        &&& self.response_clusters@.len() == RESPONSE_SIZE
        &&& forall|i: int|
            0 <= i < self.response_clusters@.len() ==> (#[trigger] self.response_clusters@[i]).wf()
        &&& forall|i: int| 0 <= i < self.cells@.len() ==> ownable(#[trigger] self.cells@[i])
    }

    /// The rules of the plant are the ones its own genome encodes.
    pub open spec fn phenotype_matches_genome(&self, config: Config) -> bool {
        self.response_clusters@ == decode_clusters(self.genome@.rewound(), config)
    }

    /// Runtime form of [`Plant::wf`].
    pub fn is_valid(&self) -> (valid: bool)
        ensures
            valid == self.wf(),
    {
        if !(self.genome.is_valid() && i32::MIN < self.pos.x && self.pos.x < i32::MAX && i32::MIN
            < self.pos.y && self.pos.y < i32::MAX && self.response_clusters.len()
            == RESPONSE_SIZE) {
            return false;
        }
        let mut i: usize = 0;
        while i < self.response_clusters.len()
            invariant
                i <= self.response_clusters@.len(),
                forall|k: int| 0 <= k < i ==> (#[trigger] self.response_clusters@[k]).wf(),
            decreases self.response_clusters@.len() - i,
        {
            if !self.response_clusters[i].is_valid() {
                return false;
            }
            i += 1;
        }
        let mut j: usize = 0;
        while j < self.cells.len()
            invariant
                j <= self.cells@.len(),
                forall|k: int| 0 <= k < j ==> ownable(#[trigger] self.cells@[k]),
            decreases self.cells@.len() - j,
        {
            if !self.cells[j].is_ownable() {
                return false;
            }
            j += 1;
        }
        true
    }

    /// Whether every cell of the plant lies inside a grid of the given
    /// size.
    pub fn cells_in_grid(&self, grid_size: Pos) -> (inside: bool)
        ensures
            inside == forall|j: int|
                0 <= j < self.cells@.len() ==> (#[trigger] self.cells@[j]).pos.in_grid(
                    grid_size.x as int,
                    grid_size.y as int,
                ),
    {
        let mut j: usize = 0;
        while j < self.cells.len()
            invariant
                j <= self.cells@.len(),
                forall|k: int|
                    0 <= k < j ==> (#[trigger] self.cells@[k]).pos.in_grid(
                        grid_size.x as int,
                        grid_size.y as int,
                    ),
            decreases self.cells@.len() - j,
        {
            let pos: Pos = self.cells[j].get_pos();
            if !(0 <= pos.x && pos.x < grid_size.x && 0 <= pos.y && pos.y < grid_size.y) {
                return false;
            }
            j += 1;
        }
        true
    }

    /// A seed with a freshly drawn genome.
    pub fn new(pos: Pos, config: &Config) -> (plant: Plant)
        requires
            config.wf(),
            has_neighbours(pos),
        ensures
            plant.wf(),
            plant.cells@.len() == 0,
            plant.pos == pos,
            !plant.has_root,
            plant.energy == config.default_energy,
            plant.lifetime == 0,
            plant.genome@.data.len() == GENOME_SIZE,
            plant.phenotype_matches_genome(*config),
    {
        let mut genome: Genome = Genome::new();
        let response_clusters: Vec<ResponseCluster> = Plant::create_responses(&mut genome, config);
        Plant {
            cells: Vec::new(),
            pos,
            has_root: false,
            energy: config.default_energy,
            lifetime: 0,
            genome,
            response_clusters,
        }
    }

    /// A rooted plant with a freshly drawn genome and its root at
    /// `root_pos`.
    pub fn new_with_root(root_pos: Pos, config: &Config) -> (plant: Plant)
        requires
            config.wf(),
            has_neighbours(root_pos),
        ensures
            plant.wf(),
            plant.cells@ == seq![PlantCell::root_spec(root_pos)],
            plant.pos == root_pos,
            plant.has_root,
            plant.energy == config.default_energy,
            plant.lifetime == 0,
            plant.genome@.data.len() == GENOME_SIZE,
            plant.phenotype_matches_genome(*config),
    {
        let mut genome: Genome = Genome::new();
        let response_clusters: Vec<ResponseCluster> = Plant::create_responses(&mut genome, config);
        let mut cells: Vec<PlantCell> = Vec::new();
        cells.push(PlantCell::new_root(root_pos));
        Plant {
            cells,
            pos: root_pos,
            has_root: true,
            energy: config.default_energy,
            lifetime: 0,
            genome,
            response_clusters,
        }
    }

    /// The energy a seed of this plant starts with: the default plus a
    /// bequest for every tick the parent has lived.
    pub open spec fn bequest_spec(&self, config: Config) -> i64 {
        saturated(config.default_energy + self.lifetime * config.lifetime_factor)
    }

    /// A seed of this plant at `pos`. Its genome is one mutated copy of the
    /// parent's, and its rules are decoded from that very copy.
    pub fn new_offspring(&self, pos: Pos, config: &Config) -> (child: Plant)
        requires
            self.wf(),
            config.wf(),
            has_neighbours(pos),
        ensures
            child.wf(),
            child.cells@.len() == 0,
            child.pos == pos,
            !child.has_root,
            child.energy == self.bequest_spec(*config),
            child.lifetime == 0,
            child.genome@.data.len() == self.genome@.data.len(),
            config.mutation_rate.is_zero() ==> child.genome@.data == self.genome@.data,
            child.phenotype_matches_genome(*config),
    {
        let mut genome: Genome = self.genome.create_offspring(config.mutation_rate);
        let response_clusters: Vec<ResponseCluster> = Plant::create_responses(&mut genome, config);
        proof {
            lemma_product_bounded(
                self.lifetime as int,
                config.lifetime_factor as int,
                usize::MAX as int,
                ENERGY_PARAMETER_LIMIT as int,
            );
        }
        let bequest: i128 = (self.lifetime as i128) * (config.lifetime_factor as i128);
        let energy: i64 = saturate(config.default_energy as i128 + bequest);
        Plant {
            cells: Vec::new(),
            pos,
            has_root: false,
            energy,
            lifetime: 0,
            genome,
            response_clusters,
        }
    }

    /// The cells as pairs of position and type, in the order they were
    /// grown.
    pub fn get_cells(&self) -> (cells: Vec<(Pos, CellType)>)
        ensures
            cells@.len() == self.cells@.len(),
            forall|i: int|
                0 <= i < cells@.len() ==> #[trigger] cells@[i] == (
                    self.cells@[i].pos,
                    self.cells@[i].cell_type,
                ),
    {
        let mut out: Vec<(Pos, CellType)> = Vec::with_capacity(self.cells.len());
        let mut i: usize = 0;
        while i < self.cells.len()
            invariant
                i <= self.cells@.len(),
                out@.len() == i,
                forall|j: int|
                    0 <= j < i ==> #[trigger] out@[j] == (
                        self.cells@[j].pos,
                        self.cells@[j].cell_type,
                    ),
            decreases self.cells@.len() - i,
        {
            out.push((self.cells[i].get_pos(), self.cells[i].get_cell_type()));
            i += 1;
        }
        out
    }

    /// Whether the energy balance is positive.
    pub fn has_energy(&self) -> (positive: bool)
        ensures
            positive == (self.energy > 0),
    {
        self.energy > 0
    }

    /// The energy balance, in millionths.
    pub fn get_energy(&self) -> (energy: i64)
        ensures
            energy == self.energy,
    {
        self.energy
    }

    /// Adds `energy_amount`, which may be negative, to the balance.
    pub fn give_energy(&mut self, energy_amount: i64)
        ensures
            final(self).energy == saturated(old(self).energy + energy_amount),
            final(self).cells == old(self).cells,
            final(self).pos == old(self).pos,
            final(self).has_root == old(self).has_root,
            final(self).lifetime == old(self).lifetime,
            final(self).genome == old(self).genome,
            final(self).response_clusters == old(self).response_clusters,
    {
        self.energy = saturate(self.energy as i128 + energy_amount as i128);
    }

    /// The plant one tick older. Age stops counting at the machine limit.
    pub open spec fn aged(self) -> Plant {
        Plant {
            lifetime: if self.lifetime < usize::MAX {
                (self.lifetime + 1) as usize
            } else {
                self.lifetime
            },
            ..self
        }
    }

    /// Lets one tick pass.
    pub fn increase_age(&mut self)
        ensures
            *final(self) == old(self).aged(),
    {
        if self.lifetime < usize::MAX {
            self.lifetime += 1;
        }
    }

    /// Whether the plant has outlived the age its size grants it.
    pub open spec fn is_too_old_spec(&self) -> bool {
        self.lifetime > BASE_MAX_AGE + MAX_AGE_CELL_MODIFIER * self.cells@.len()
    }

    /// Whether the plant is to be removed: too old, or not rooted.
    pub open spec fn is_dead_spec(&self) -> bool {
        self.is_too_old_spec() || !self.has_root
    }

    /// Whether the plant is to be removed from the living: it is too old,
    /// or it never germinated.
    pub fn is_dead(&self) -> (dead: bool)
        ensures
            dead == self.is_dead_spec(),
    {
        self.is_too_old() || !self.has_root
    }

    /// Whether the plant has outlived the age its size grants it.
    pub fn is_too_old(&self) -> (old: bool)
        ensures
            old == self.is_too_old_spec(),
    {
        let allowed: u128 = (BASE_MAX_AGE as u128) + (MAX_AGE_CELL_MODIFIER as u128) * (
        self.cells.len() as u128);
        (self.lifetime as u128) > allowed
    }

    /// The proposals of one owned cell: none for a leaf; for a trunk, one
    /// for each rule of its cluster that fires.
    pub open spec fn cell_proposals_spec(&self, cell: PlantCell, config: Config) -> Seq<Proposal> {
        match cell.cell_type {
            CellType::Trunk { root_connection } => {
                let targets = self.response_clusters@[cell.response_ix as int].targets_spec(
                    cell.pos,
                    self.energy,
                    root_connection,
                    config,
                );
                Seq::new(targets.len(), |j: int| proposal_of(targets[j], root_connection, config))
            },
            _ => Seq::empty(),
        }
    }

    /// The proposals of the first `count` cells, in cell order.
    pub open spec fn proposals_of_first(&self, count: nat, config: Config) -> Seq<Proposal>
        decreases count,
    {
        if count == 0 {
            Seq::empty()
        } else {
            self.proposals_of_first((count - 1) as nat, config) + self.cell_proposals_spec(
                self.cells@[count - 1],
                config,
            )
        }
    }

    /// All growth proposals of the plant: none before it is rooted.
    pub open spec fn growth_proposals_spec(&self, config: Config) -> Seq<Proposal> {
        if self.has_root {
            self.proposals_of_first(self.cells@.len(), config)
        } else {
            Seq::empty()
        }
    }

    /// Computes the proposals of one owned cell.
    pub fn cell_proposals(&self, cell: &PlantCell, config: &Config) -> (proposals: Vec<Proposal>)
        requires
            self.wf(),
            config.wf(),
            ownable(*cell),
        ensures
            proposals@ == self.cell_proposals_spec(*cell, *config),
            forall|j: int| 0 <= j < proposals@.len() ==> acceptable(#[trigger] proposals@[j]),
    {
        let mut proposals: Vec<Proposal> = Vec::new();
        match cell.get_cell_type() {
            CellType::Trunk { root_connection } => {
                let cluster: &ResponseCluster = &self.response_clusters[cell.get_response_ix()];
                let targets: Vec<Target> = cluster.get_response_ix_with_position(
                    &cell.get_pos(),
                    self.energy,
                    root_connection,
                    config,
                );
                let mut j: usize = 0;
                while j < targets.len()
                    invariant
                        j <= targets@.len(),
                        self.wf(),
                        config.wf(),
                        ownable(*cell),
                        cell.cell_type == (CellType::Trunk { root_connection }),
                        *cluster == self.response_clusters@[cell.response_ix as int],
                        targets@ == cluster.targets_spec(
                            cell.pos,
                            self.energy,
                            root_connection,
                            *config,
                        ),
                        proposals@.len() == j,
                        forall|k: int|
                            0 <= k < j ==> #[trigger] proposals@[k] == proposal_of(
                                targets@[k],
                                root_connection,
                                *config,
                            ),
                        forall|k: int| 0 <= k < j ==> acceptable(#[trigger] proposals@[k]),
                    decreases targets@.len() - j,
                {
                    let (pos, response_idx, offered): Target = targets[j];
                    proof {
                        lemma_offer_is_active(
                            *cluster,
                            cell.pos,
                            self.energy,
                            root_connection,
                            *config,
                            j as int,
                        );
                        lemma_product_bounded(
                            config.cell_growth_cost as int,
                            UNIT as int,
                            ENERGY_PARAMETER_LIMIT as int,
                            UNIT as int,
                        );
                        lemma_quotient_bounded(
                            config.cell_growth_cost * UNIT,
                            root_connection as int,
                        );
                    }
                    let cell_type: CellType = match offered {
                        CellType::Trunk { .. } => CellType::Trunk {
                            root_connection: config.root_con_decay.scale(root_connection),
                        },
                        other => other,
                    };
                    let energy_cost: i64 = config.cell_growth_cost * (UNIT as i64) / (
                    root_connection as i64);
                    proposals.push((pos, response_idx, cell_type, energy_cost));
                    j += 1;
                }
                assert(proposals@ =~= self.cell_proposals_spec(*cell, *config));
            },
            _ => {},
        }
        proposals
    }

    /// Proposes growth. A plant that is not rooted proposes nothing. A
    /// rooted plant asks every trunk it owns: the trunk's cluster is
    /// evaluated at the trunk's position with the plant's energy and the
    /// trunk's root connection, and every rule that fires yields a proposal.
    /// A proposed trunk is connected through its parent, one decay step
    /// weaker; the price of any proposal is the base cost divided by the
    /// parent's connection. Leaves propose nothing.
    pub fn create_growth_proposals(&self, config: &Config) -> (proposals: Vec<Proposal>)
        requires
            self.wf(),
            config.wf(),
        ensures
            proposals@ == self.growth_proposals_spec(*config),
            !self.has_root ==> proposals@.len() == 0,
            forall|j: int| 0 <= j < proposals@.len() ==> acceptable(#[trigger] proposals@[j]),
    {
        let mut growth_proposals: Vec<Proposal> = Vec::new();
        if self.has_root {
            let mut i: usize = 0;
            while i < self.cells.len()
                invariant
                    i <= self.cells@.len(),
                    self.wf(),
                    config.wf(),
                    growth_proposals@ == self.proposals_of_first(i as nat, *config),
                    forall|j: int|
                        0 <= j < growth_proposals@.len() ==> acceptable(
                            #[trigger] growth_proposals@[j],
                        ),
                decreases self.cells@.len() - i,
            {
                let mut more: Vec<Proposal> = self.cell_proposals(&self.cells[i], config);
                growth_proposals.append(&mut more);
                i += 1;
            }
        }
        growth_proposals
    }

    /// Appends a cell.
    pub fn add_cell(&mut self, pos: Pos, cell: CellType, response_ix: usize)
        ensures
            final(self).cells@ == old(self).cells@.push(
                PlantCell { pos, cell_type: cell, response_ix },
            ),
            final(self).pos == old(self).pos,
            final(self).has_root == old(self).has_root,
            final(self).energy == old(self).energy,
            final(self).lifetime == old(self).lifetime,
            final(self).genome == old(self).genome,
            final(self).response_clusters == old(self).response_clusters,
    {
        self.cells.push(PlantCell::new(pos, cell, response_ix));
    }

    /// Decodes the full table of clusters from consecutive reads.
    pub fn create_responses(genome: &mut Genome, config: &Config) -> (clusters: Vec<
        ResponseCluster,
    >)
        requires
            old(genome).wf(),
            config.wf(),
        ensures
            final(genome).wf(),
            final(genome)@ == old(genome)@.advance((CLUSTER_READS * RESPONSE_SIZE) as nat),
            clusters@ == decode_clusters(old(genome)@, *config),
            forall|i: int| 0 <= i < clusters@.len() ==> (#[trigger] clusters@[i]).wf(),
    {
        let mut clusters: Vec<ResponseCluster> = Vec::with_capacity(RESPONSE_SIZE);
        let mut i: usize = 0;
        proof {
            lemma_advance_sum(old(genome)@, 0, 0);
            vstd::arithmetic::div_mod::lemma_small_mod(
                old(genome)@.cursor,
                old(genome)@.data.len(),
            );
        }
        while i < RESPONSE_SIZE
            invariant
                i <= RESPONSE_SIZE,
                old(genome).wf(),
                genome.wf(),
                config.wf(),
                genome@ == old(genome)@.advance((CLUSTER_READS * i) as nat),
                clusters@.len() == i,
                forall|k: int|
                    0 <= k < i ==> #[trigger] clusters@[k] == decode_cluster(
                        old(genome)@.advance((CLUSTER_READS * k) as nat),
                        *config,
                    ),
                forall|k: int| 0 <= k < i ==> (#[trigger] clusters@[k]).wf(),
            decreases RESPONSE_SIZE - i,
        {
            proof {
                lemma_advance_sum(old(genome)@, (CLUSTER_READS * i) as nat, CLUSTER_READS as nat);
            }
            let cluster: ResponseCluster = ResponseCluster::new(genome, config);
            clusters.push(cluster);
            i += 1;
        }
        assert(clusters@ =~= decode_clusters(old(genome)@, *config));
        clusters
    }

    /// Whether the plant has not germinated yet.
    pub fn is_seed(&self) -> (seed: bool)
        ensures
            seed == !self.has_root,
    {
        !self.has_root
    }

    /// Where the seed is, or where the root stands.
    pub fn get_pos(&self) -> (pos: Pos)
        ensures
            pos == self.pos,
    {
        self.pos
    }

    /// Germinates the seed where it lies. Only a seed on the ground can
    /// take root.
    pub fn create_root(&mut self)
        requires
            old(self).pos.y == 0,
        ensures
            final(self).has_root,
            final(self).cells@ == old(self).cells@.push(PlantCell::root_spec(old(self).pos)),
            final(self).pos == old(self).pos,
            final(self).energy == old(self).energy,
            final(self).lifetime == old(self).lifetime,
            final(self).genome == old(self).genome,
            final(self).response_clusters == old(self).response_clusters,
    {
        self.has_root = true;
        self.cells.push(PlantCell::new_root(self.pos));
    }

    /// Moves a seed. A rooted plant stays where it is.
    pub fn set_pos(&mut self, pos: Pos)
        requires
            !old(self).has_root,
        ensures
            final(self).pos == pos,
            final(self).cells == old(self).cells,
            final(self).has_root == old(self).has_root,
            final(self).energy == old(self).energy,
            final(self).lifetime == old(self).lifetime,
            final(self).genome == old(self).genome,
            final(self).response_clusters == old(self).response_clusters,
    {
        self.pos = pos;
    }

    /// The index of the first owned cell at `pos`, if there is one.
    pub fn get_cell_ix_at(&self, pos: Pos) -> (found: Option<usize>)
        ensures
            match found {
                Some(ix) => ix < self.cells@.len() && self.cells@[ix as int].pos == pos
                    && forall|j: int| 0 <= j < ix ==> (#[trigger] self.cells@[j]).pos != pos,
                None => forall|j: int|
                    0 <= j < self.cells@.len() ==> (#[trigger] self.cells@[j]).pos != pos,
            },
    {
        let mut i: usize = 0;
        while i < self.cells.len()
            invariant
                i <= self.cells@.len(),
                forall|j: int| 0 <= j < i ==> (#[trigger] self.cells@[j]).pos != pos,
            decreases self.cells@.len() - i,
        {
            let at: Pos = self.cells[i].get_pos();
            if at.x == pos.x && at.y == pos.y {
                return Some(i);
            }
            i += 1;
        }
        None
    }
}

/// Every offer of a cluster comes from a rule that fires, so the parent
/// still has some connection to the root.
pub proof fn lemma_offer_is_active(
    cluster: ResponseCluster,
    pos: Pos,
    current_energy: i64,
    root_connection: u32,
    config: Config,
    j: int,
)
    requires
        0 <= j < cluster.targets_spec(pos, current_energy, root_connection, config).len(),
        cluster.wf(),
    ensures
        0 < root_connection,
        ({
            let target = cluster.targets_spec(pos, current_energy, root_connection, config)[j];
            target.1 < RESPONSE_SIZE && (target.2 == CellType::Leaf { sun_absorbed: 0 } || target.2
                == CellType::Trunk { root_connection: UNIT })
        }),
{
}

/// A non-negative number divided by a positive one does not grow.
pub proof fn lemma_quotient_bounded(value: int, divisor: int)
    by (nonlinear_arith)
    requires
        0 <= value,
        0 < divisor,
    ensures
        0 <= value / divisor <= value,
{
}

/// The root connection never grows along a chain of trunks, and it stays
/// within one decay step of the exact geometric value: after `steps` steps
/// it is at most `decay` times the connection before, and more than that
/// minus one millionth.
pub proof fn lemma_chain_connection_monotone(steps: nat, decay: Ratio)
    requires
        decay.wf(),
    ensures
        0 <= chain_connection(steps + 1, decay) <= chain_connection(steps, decay) <= UNIT,
        decay.den * chain_connection(steps + 1, decay) <= decay.num * chain_connection(
            steps,
            decay,
        ),
        decay.num * chain_connection(steps, decay) < decay.den * (chain_connection(
            steps + 1,
            decay,
        ) + 1),
    decreases steps,
{
    if steps > 0 {
        lemma_chain_connection_monotone((steps - 1) as nat, decay);
    }
    let before = chain_connection(steps, decay);
    crate::ratio::lemma_scale_bounded(before, decay.num as int, decay.den as int);
    let product = before * decay.num;
    let den = decay.den as int;
    vstd::arithmetic::div_mod::lemma_fundamental_div_mod(product, den);
    vstd::arithmetic::div_mod::lemma_mod_bound(product, den);
    assert(before * decay.num == decay.num * before) by (nonlinear_arith);
    assert(den * (product / den + 1) == den * (product / den) + den) by (nonlinear_arith);
}

/// The root connection follows the powers of the decay factor. After
/// `steps` growth steps away from the root, the stored connection never
/// exceeds the exact value `decay^steps`, and it falls short of it by less
/// than `den / (den - num)` millionths, whatever the number of steps. Both
/// bounds are stated without division, over the common denominator
/// `den^steps`.
pub proof fn lemma_chain_connection_geometric(steps: nat, decay: Ratio)
    requires
        decay.wf(),
    ensures
        chain_connection(steps, decay) * power(decay.den as int, steps) <= UNIT * power(
            decay.num as int,
            steps,
        ),
        (decay.den - decay.num) * (UNIT * power(decay.num as int, steps) - chain_connection(
            steps,
            decay,
        ) * power(decay.den as int, steps)) < decay.den * power(decay.den as int, steps),
    decreases steps,
{
    let num = decay.num as int;
    let den = decay.den as int;
    let unit = UNIT as int;
    if steps == 0 {
        assert(power(den, 0) == 1 && power(num, 0) == 1);
        assert((den - num) * (unit * 1 - unit * 1) == 0) by (nonlinear_arith);
        assert(0 < den * 1) by (nonlinear_arith)
            requires
                0 < den,
        ;
    } else {
        let before = (steps - 1) as nat;
        lemma_chain_connection_geometric(before, decay);
        lemma_chain_connection_monotone(before, decay);
        lemma_power_sign(den, before);
        lemma_power_sign(num, before);
        let c = chain_connection(before, decay);
        let d = chain_connection(steps, decay);
        let p = power(num, before);
        let q = power(den, before);
        assert(power(num, steps) == num * p);
        assert(power(den, steps) == den * q);
        let exact = unit * p;
        let gap = exact - c * q;
        // d * (den * q) <= unit * (num * p)
        assert(d * (den * q) <= unit * (num * p)) by (nonlinear_arith)
            requires
                den * d <= num * c,
                c * q <= unit * p,
                0 < q,
                0 <= num,
        ;
        // the new gap is below num * gap + den * q
        let gap_after = unit * (num * p) - d * (den * q);
        let held = den * d;
        let owed = num * c - den;
        assert(den * (d + 1) == den * d + den) by (nonlinear_arith);
        assert(owed * q < held * q) by (nonlinear_arith)
            requires
                owed < held,
                0 < q,
        ;
        assert(d * (den * q) == held * q) by (nonlinear_arith)
            requires
                held == den * d,
        ;
        assert(owed * q == num * (c * q) - den * q) by (nonlinear_arith)
            requires
                owed == num * c - den,
        ;
        assert(unit * (num * p) == num * (unit * p)) by (nonlinear_arith);
        assert(num * gap == num * (unit * p) - num * (c * q)) by (nonlinear_arith)
            requires
                gap == unit * p - c * q,
        ;
        assert(gap_after < num * gap + den * q);
        let slack = den - num;
        let bound = den * q;
        assert(slack * gap_after <= slack * (num * gap + bound - 1)) by (nonlinear_arith)
            requires
                gap_after <= num * gap + bound - 1,
                0 <= slack,
        ;
        assert(slack * (num * gap + bound - 1) == num * (slack * gap) + slack * bound - slack)
            by (nonlinear_arith);
        assert(num * (slack * gap) <= num * bound) by (nonlinear_arith)
            requires
                slack * gap <= bound,
                0 <= num,
        ;
        assert(num * bound + slack * bound == den * bound) by (nonlinear_arith)
            requires
                slack == den - num,
        ;
        assert(0 < bound) by (nonlinear_arith)
            requires
                bound == den * q,
                0 < den,
                0 < q,
        ;
        assert(0 < den * bound) by (nonlinear_arith)
            requires
                0 < den,
                0 < bound,
        ;
        assert(slack == 0 ==> slack * gap_after == 0) by (nonlinear_arith);
        assert(slack * gap_after < den * bound);
    }
}

} // verus!
